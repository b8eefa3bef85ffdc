//! Finding the thermal zone and the fan-control attribute among the entries
//! that the platform lists.
//!
//! The caller lists a directory and records, for each entry in the order in
//! which the listing gave it, what it could observe. The scan then takes the
//! first entry that is the wanted one: entries before it are passed over,
//! entries after it are never looked at. An entry whose label could not be
//! read is not the wanted one, and the scan goes on behind it.

use crate::text::{contains, str_contains};
use vstd::prelude::*;
use vstd::string::StringExecFns;

verus! {

/// The directory under which the platform lists its thermal zones.
pub const THERMAL_ZONE_ROOT: &'static str = "/sys/class/thermal";

/// The directory under which the platform lists the monitors of the fan
/// controller.
pub const MONITOR_ROOT: &'static str = "/sys/devices/platform/asus-nb-wmi/hwmon/";

/// The part of an entry's path that marks it as a thermal zone.
pub const ZONE_ENTRY_MARKER: &'static str = "thermal_zone";

/// The part of a zone's type label that names the wanted zone.
pub const ZONE_TYPE_ID: &'static str = "acpitz";

/// The part of a monitor's fan label that names the wanted fan.
pub const FAN_LABEL_ID: &'static str = "cpu_fan";

/// Appended to a zone's path, the path of its type label.
pub const ZONE_TYPE_ATTR: &'static str = "/type";

/// Appended to a zone's path, the path of its temperature attribute.
pub const ZONE_TEMP_ATTR: &'static str = "/temp";

/// Appended to a monitor's path, the path of its fan label.
pub const FAN_LABEL_ATTR: &'static str = "/fan1_label";

/// Appended to a monitor's path, the path of its fan-control attribute.
pub const FAN_CONTROL_ATTR: &'static str = "/pwm1_enable";

/// Why a discovery found nothing.
#[derive(Clone, Copy, Debug, PartialEq, Eq, Structural)]
pub enum DiscoveryError {
    /// The root is missing, or no entry under it is the wanted one.
    NotFound,
}

/// An entry under the thermal-zone root, as the caller observed it.
#[derive(Debug)]
pub struct ZoneEntry {
    /// The entry's path.
    pub path: String,
    /// The text of the entry's type label, or `None` when it could not be
    /// read. Not looked at unless the path marks a thermal zone.
    pub zone_type: Option<String>,
}

/// An entry under the monitor root, as the caller observed it.
#[derive(Debug)]
pub struct MonitorEntry {
    /// The entry's path.
    pub path: String,
    /// The text of the entry's fan label, or `None` when it could not be
    /// read.
    pub fan_label: Option<String>,
    /// Whether the entry has a fan-control attribute.
    pub has_control: bool,
}

/// An entry that a scan can judge.
pub trait Candidate {
    /// Whether this entry is the wanted one.
    spec fn wanted(&self) -> bool;

    /// Decides whether this entry is the wanted one.
    fn is_wanted(&self) -> (b: bool)
        ensures
            b == self.wanted(),
    ;
}

/// The characters of an optional text.
pub open spec fn text_of(text: Option<String>) -> Option<Seq<char>> {
    match text {
        Some(t) => Some(t@),
        None => None,
    }
}

/// Whether a thermal-zone entry with this path and type label is the wanted
/// zone: its path marks a thermal zone, and its label was read and names the
/// wanted type.
pub open spec fn zone_wanted(path: Seq<char>, zone_type: Option<Seq<char>>) -> bool {
    &&& contains(path, ZONE_ENTRY_MARKER@)
    &&& zone_type matches Some(label)
    &&& contains(label, ZONE_TYPE_ID@)
}

/// Whether a monitor entry with this fan label is the wanted monitor: its
/// label was read and names the wanted fan, and the entry has a control
/// attribute.
pub open spec fn monitor_wanted(fan_label: Option<Seq<char>>, has_control: bool) -> bool {
    &&& fan_label matches Some(label)
    &&& contains(label, FAN_LABEL_ID@)
    &&& has_control
}

/// Which of the entries are wanted, in listing order.
pub open spec fn verdicts<E: Candidate>(entries: Seq<E>) -> Seq<bool> {
    Seq::new(entries.len(), |i: int| entries[i].wanted())
}

/// The outcome of a scan over entries of which these are wanted, in listing
/// order: the index of the first wanted entry, or `NotFound` if none is
/// wanted.
pub open spec fn scan(wanted: Seq<bool>) -> Result<int, DiscoveryError>
    decreases wanted.len(),
{
    if wanted.len() == 0 {
        Err(DiscoveryError::NotFound)
    } else if wanted.first() {
        Ok(0)
    } else {
        match scan(wanted.drop_first()) {
            Ok(i) => Ok(i + 1),
            Err(e) => Err(e),
        }
    }
}

/// The outcome of a discovery, where `listing` holds the entries under the
/// root or is `None` when the root is missing.
pub open spec fn outcome<E: Candidate>(listing: Option<Seq<E>>) -> Result<int, DiscoveryError> {
    match listing {
        None => Err(DiscoveryError::NotFound),
        Some(entries) => scan(verdicts(entries)),
    }
}

/// The entries that a listing holds.
pub open spec fn entries_of<E>(listing: Option<&Vec<E>>) -> Option<Seq<E>> {
    match listing {
        Some(entries) => Some(entries@),
        None => None,
    }
}

/// Whether an entry at `path` under the thermal-zone root is a thermal zone,
/// so that its type label is worth reading.
pub fn is_zone_entry(path: &str) -> (b: bool)
    ensures
        b == contains(path@, ZONE_ENTRY_MARKER@),
{
    str_contains(path, ZONE_ENTRY_MARKER)
}

/// Whether the type label of a thermal zone names the wanted zone.
pub fn is_wanted_zone_type(label: &str) -> (b: bool)
    ensures
        b == contains(label@, ZONE_TYPE_ID@),
{
    str_contains(label, ZONE_TYPE_ID)
}

/// Whether the fan label of a monitor names the wanted fan, so that its
/// control attribute is worth looking for.
pub fn is_wanted_fan_label(label: &str) -> (b: bool)
    ensures
        b == contains(label@, FAN_LABEL_ID@),
{
    str_contains(label, FAN_LABEL_ID)
}

impl Candidate for ZoneEntry {
    open spec fn wanted(&self) -> bool {
        zone_wanted(self.path@, text_of(self.zone_type))
    }

    fn is_wanted(&self) -> (b: bool) {
        match &self.zone_type {
            Some(label) => is_zone_entry(self.path.as_str()) && is_wanted_zone_type(
                label.as_str(),
            ),
            None => false,
        }
    }
}

impl Candidate for MonitorEntry {
    open spec fn wanted(&self) -> bool {
        monitor_wanted(text_of(self.fan_label), self.has_control)
    }

    fn is_wanted(&self) -> (b: bool) {
        match &self.fan_label {
            Some(label) => is_wanted_fan_label(label.as_str()) && self.has_control,
            None => false,
        }
    }
}

/// A scan of which none of the first `k` entries is wanted is the scan of the
/// rest, counted from `k`.
pub proof fn lemma_scan_after_skips(wanted: Seq<bool>, k: int)
    requires
        0 <= k <= wanted.len(),
        forall|j: int| 0 <= j < k ==> !wanted[j],
    ensures
        scan(wanted) == match scan(wanted.subrange(k, wanted.len() as int)) {
            Ok(i) => Ok::<int, DiscoveryError>(i + k),
            Err(e) => Err(e),
        },
    decreases k,
{
    if k == 0 {
        assert(wanted.subrange(0, wanted.len() as int) =~= wanted);
    } else {
        let rest = wanted.drop_first();
        assert(wanted.first() == wanted[0]);
        assert forall|j: int| 0 <= j < k - 1 implies !rest[j] by {
            assert(rest[j] == wanted[j + 1]);
        }
        lemma_scan_after_skips(rest, k - 1);
        assert(rest.subrange(k - 1, rest.len() as int) =~= wanted.subrange(
            k,
            wanted.len() as int,
        ));
    }
}

/// The scan takes the first wanted entry, whatever follows it: it succeeds
/// with `i` exactly when entry `i` is wanted and none before it is, and fails
/// with `NotFound` exactly when no entry is wanted.
pub proof fn lemma_scan_takes_first(wanted: Seq<bool>)
    ensures
        match scan(wanted) {
            Ok(i) => 0 <= i < wanted.len() && wanted[i] && forall|j: int|
                0 <= j < i ==> !wanted[j],
            Err(_) => forall|j: int| 0 <= j < wanted.len() ==> !wanted[j],
        },
    decreases wanted.len(),
{
    if wanted.len() > 0 && !wanted.first() {
        let rest = wanted.drop_first();
        lemma_scan_takes_first(rest);
        match scan(rest) {
            Ok(i) => {
                assert(rest[i] == wanted[i + 1]);
                assert forall|j: int| 0 <= j < i + 1 implies !wanted[j] by {
                    if j > 0 {
                        assert(rest[j - 1] == wanted[j]);
                    }
                }
            },
            Err(_) => {
                assert forall|j: int| 0 <= j < wanted.len() implies !wanted[j] by {
                    if j > 0 {
                        assert(rest[j - 1] == wanted[j]);
                    }
                }
            },
        }
    }
}

/// Once a listing holds a wanted entry, entries listed after it do not
/// change the outcome.
pub proof fn lemma_scan_ignores_rest(wanted: Seq<bool>, more: Seq<bool>)
    requires
        scan(wanted) is Ok,
    ensures
        scan(wanted + more) == scan(wanted),
    decreases wanted.len(),
{
    let all = wanted + more;
    assert(all.first() == wanted.first());
    if !wanted.first() {
        lemma_scan_ignores_rest(wanted.drop_first(), more);
        assert(all.drop_first() =~= wanted.drop_first() + more);
    }
}

/// Of several wanted entries the one listed first is taken: after any number
/// of entries that are not wanted, a wanted entry is the outcome whatever is
/// listed behind it.
pub proof fn lemma_first_match_wins(skipped: Seq<bool>, rest: Seq<bool>)
    requires
        forall|j: int| 0 <= j < skipped.len() ==> !skipped[j],
    ensures
        scan(skipped + seq![true] + rest) == Ok::<int, DiscoveryError>(skipped.len() as int),
{
    let all = skipped + seq![true] + rest;
    let k = skipped.len() as int;
    assert forall|j: int| 0 <= j < k implies !all[j] by {
        assert(all[j] == skipped[j]);
    }
    lemma_scan_after_skips(all, k);
    assert(all.subrange(k, all.len() as int).first());
}

/// A monitor whose label names the wanted fan but which has no control
/// attribute is not the wanted one, and neither is an entry whose label could
/// not be read: the scan passes over both and goes on.
pub proof fn lemma_incomplete_entries_are_passed_over(
    path: Seq<char>,
    fan_label: Option<Seq<char>>,
    has_control: bool,
)
    ensures
        !monitor_wanted(fan_label, false),
        !monitor_wanted(None, has_control),
        !zone_wanted(path, None),
{
}

/// `base` followed by `suffix`.
pub fn join(base: &str, suffix: &str) -> (path: String)
    ensures
        path@ == base@ + suffix@,
{
    String::from_str(base).concat(suffix)
}

/// The path of the type label of the thermal-zone entry at `entry`.
pub fn zone_type_path(entry: &str) -> (path: String)
    ensures
        path@ == entry@ + ZONE_TYPE_ATTR@,
{
    join(entry, ZONE_TYPE_ATTR)
}

/// The path of the temperature attribute of the thermal zone at `zone`.
pub fn zone_temp_path(zone: &str) -> (path: String)
    ensures
        path@ == zone@ + ZONE_TEMP_ATTR@,
{
    join(zone, ZONE_TEMP_ATTR)
}

/// The path of the fan label of the monitor entry at `entry`.
pub fn fan_label_path(entry: &str) -> (path: String)
    ensures
        path@ == entry@ + FAN_LABEL_ATTR@,
{
    join(entry, FAN_LABEL_ATTR)
}

/// The path of the fan-control attribute of the monitor entry at `entry`.
pub fn fan_control_path(entry: &str) -> (path: String)
    ensures
        path@ == entry@ + FAN_CONTROL_ATTR@,
{
    join(entry, FAN_CONTROL_ATTR)
}

/// The index of the first wanted entry of `entries`, if any is wanted.
pub fn first_wanted<E: Candidate>(entries: &Vec<E>) -> (found: Option<usize>)
    ensures
        match scan(verdicts(entries@)) {
            Ok(i) => 0 <= i < entries.len() && found == Some(i as usize),
            Err(_) => found is None,
        },
{
    let ghost wanted = verdicts(entries@);
    let n = entries.len();
    let mut i: usize = 0;
    while i < n
        invariant
            n == entries.len(),
            i <= n,
            wanted == verdicts(entries@),
            forall|j: int| 0 <= j < i ==> !wanted[j],
        decreases n - i,
    {
        proof {
            lemma_scan_after_skips(wanted, i as int);
            assert(wanted.subrange(i as int, n as int).first() == wanted[i as int]);
        }
        if entries[i].is_wanted() {
            return Some(i);
        }
        i += 1;
    }
    proof {
        lemma_scan_after_skips(wanted, n as int);
    }
    None
}

/// Finds the thermal zone: the path of the first listed entry that is a
/// thermal zone of the wanted type. `listing` holds the entries under the
/// thermal-zone root in listing order, or is `None` when the root is missing.
pub fn get_acpitz_thermal_zone(listing: Option<&Vec<ZoneEntry>>) -> (zone: Result<
    String,
    DiscoveryError,
>)
    ensures
        match outcome(entries_of(listing)) {
            Ok(i) => zone matches Ok(path) && path@ == listing->0@[i].path@,
            Err(e) => zone == Err::<String, DiscoveryError>(e),
        },
{
    let entries = match listing {
        Some(entries) => entries,
        None => { return Err(DiscoveryError::NotFound); },
    };
    match first_wanted(entries) {
        Some(i) => Ok(entries[i].path.clone()),
        None => Err(DiscoveryError::NotFound),
    }
}

/// Finds the fan control: the path of the control attribute of the first
/// listed monitor entry whose fan label names the wanted fan and which has
/// such an attribute. `listing` holds the entries under the monitor root in
/// listing order, or is `None` when the root is missing.
pub fn get_cpu_fan_pwm_path(listing: Option<&Vec<MonitorEntry>>) -> (control: Result<
    String,
    DiscoveryError,
>)
    ensures
        match outcome(entries_of(listing)) {
            Ok(i) => control matches Ok(path) && path@ == listing->0@[i].path@
                + FAN_CONTROL_ATTR@,
            Err(e) => control == Err::<String, DiscoveryError>(e),
        },
{
    let entries = match listing {
        Some(entries) => entries,
        None => { return Err(DiscoveryError::NotFound); },
    };
    match first_wanted(entries) {
        Some(i) => Ok(fan_control_path(entries[i].path.as_str())),
        None => Err(DiscoveryError::NotFound),
    }
}

} // verus!
