//! The data that flows from parsed log lines to per-interface delta tables.
use vstd::prelude::*;

verus! {

/// A point in time as read from a log line's date field.
/// `year` counts years since 1900 and `month` counts from 0, as in `struct tm`;
/// `utc_offset` is in seconds east of UTC.
#[derive(Clone, Copy, Debug, PartialEq, Eq, Structural)]
pub struct Timestamp {
    pub year: i32,
    pub month: i32,
    pub day: i32,
    pub hour: i32,
    pub minute: i32,
    pub second: i32,
    pub utc_offset: i32,
}

/// One interface's cumulative counters within one sample.
#[derive(Clone, Debug)]
pub struct Interface {
    pub ifname: String,
    pub bytes_rx: u64,
    pub bytes_tx: u64,
}

/// One log line: a timestamp and the counters of every interface it lists.
#[derive(Clone, Debug)]
pub struct Sample {
    pub timestamp: Timestamp,
    pub interfaces: Vec<Interface>,
}

/// One interface's cumulative counters at one sample's timestamp.
#[derive(Clone, Copy, Debug, PartialEq, Eq, Structural)]
pub struct Observation {
    pub timestamp: Timestamp,
    pub bytes_rx: u64,
    pub bytes_tx: u64,
}

/// Traffic between two consecutive observations, labelled with the earlier one's
/// timestamp. `reset` is set when either counter went down in between.
#[derive(Clone, Copy, Debug, PartialEq, Eq, Structural)]
pub struct Delta {
    pub timestamp: Timestamp,
    pub delta_rx: u64,
    pub delta_tx: u64,
    pub reset: bool,
}

/// The delta table of one interface.
#[derive(Clone, Debug)]
pub struct InterfaceSeries {
    pub ifname: String,
    pub deltas: Vec<Delta>,
}

/// Increment of a cumulative counter: the difference, or, after a reset,
/// the new value counted from zero.
pub open spec fn counter_step(previous: u64, current: u64) -> u64 {
    if current >= previous {
        (current - previous) as u64
    } else {
        current
    }
}

/// The delta entry for two consecutive observations.
pub open spec fn delta_between(a: Observation, b: Observation) -> Delta {
    Delta {
        timestamp: a.timestamp,
        delta_rx: counter_step(a.bytes_rx, b.bytes_rx),
        delta_tx: counter_step(a.bytes_tx, b.bytes_tx),
        reset: b.bytes_rx < a.bytes_rx || b.bytes_tx < a.bytes_tx,
    }
}

/// One delta per consecutive pair of observations; none for fewer than two.
pub open spec fn deltas_of(obs: Seq<Observation>) -> Seq<Delta> {
    if obs.len() < 2 {
        Seq::empty()
    } else {
        Seq::new((obs.len() - 1) as nat, |i: int| delta_between(obs[i], obs[i + 1]))
    }
}

/// The observations of interface `name` within one sample's interface list, in order.
pub open spec fn observations_in(name: Seq<char>, ifs: Seq<Interface>, ts: Timestamp) -> Seq<Observation>
    decreases ifs.len(),
{
    if ifs.len() == 0 {
        Seq::empty()
    } else {
        let earlier = observations_in(name, ifs.drop_last(), ts);
        if ifs.last().ifname@ == name {
            earlier.push(Observation { timestamp: ts, bytes_rx: ifs.last().bytes_rx, bytes_tx: ifs.last().bytes_tx })
        } else {
            earlier
        }
    }
}

/// The observation sequence of interface `name`: every sample that lists it
/// contributes, in sample order; samples without it are skipped.
pub open spec fn series_of(name: Seq<char>, samples: Seq<Sample>) -> Seq<Observation>
    decreases samples.len(),
{
    if samples.len() == 0 {
        Seq::empty()
    } else {
        series_of(name, samples.drop_last()) + observations_in(
            name,
            samples.last().interfaces@,
            samples.last().timestamp,
        )
    }
}

/// The interface names of one sample, in the order listed.
pub open spec fn names_in(ifs: Seq<Interface>) -> Seq<Seq<char>> {
    ifs.map_values(|i: Interface| i.ifname@)
}

/// Every interface name of every sample, in file order, repeats included.
pub open spec fn name_list(samples: Seq<Sample>) -> Seq<Seq<char>>
    decreases samples.len(),
{
    if samples.len() == 0 {
        Seq::empty()
    } else {
        name_list(samples.drop_last()) + names_in(samples.last().interfaces@)
    }
}

/// The first occurrence of each distinct element, in order of first appearance.
pub open spec fn first_occurrences(names: Seq<Seq<char>>) -> Seq<Seq<char>>
    decreases names.len(),
{
    if names.len() == 0 {
        Seq::empty()
    } else {
        let earlier = first_occurrences(names.drop_last());
        if earlier.contains(names.last()) {
            earlier
        } else {
            earlier.push(names.last())
        }
    }
}

/// The distinct interface names of a sample sequence, in order of first appearance.
pub open spec fn interface_names(samples: Seq<Sample>) -> Seq<Seq<char>> {
    first_occurrences(name_list(samples))
}

/// No interface name is listed twice within one sample.
pub open spec fn names_unique(ifs: Seq<Interface>) -> bool {
    forall|i: int, j: int|
        0 <= i < j < ifs.len() ==> #[trigger] ifs[i].ifname@ != #[trigger] ifs[j].ifname@
}

/// Whether an interface list holds interface `name`.
pub open spec fn lists(ifs: Seq<Interface>, name: Seq<char>) -> bool {
    exists|j: int| 0 <= j < ifs.len() && #[trigger] ifs[j].ifname@ == name
}

/// How many samples list interface `name`.
pub open spec fn presence_count(name: Seq<char>, samples: Seq<Sample>) -> nat
    decreases samples.len(),
{
    if samples.len() == 0 {
        0
    } else {
        presence_count(name, samples.drop_last()) + if lists(samples.last().interfaces@, name) {
            1nat
        } else {
            0nat
        }
    }
}

} // verus!
