//! The analysis phase: from the stored samples to one delta table per interface,
//! and the laws that tie series lengths to how often an interface appears.
use vstd::prelude::*;

use crate::delta::process_ifvec_table;
use crate::model::{
    Delta, Interface, InterfaceSeries, Sample, Timestamp, deltas_of, interface_names, lists,
    name_list, names_in, names_unique, observations_in, presence_count, series_of,
};
use crate::record::{
    LineError, ParseError, ingest, interface_fields, lines_outcome, lines_view, sample_view,
};
use crate::series::{build_vec_for_interface, get_interface_names};

verus! {

/// The report: for each interface name in order of first appearance, its name
/// and the deltas of its observation sequence.
pub open spec fn report_of(samples: Seq<Sample>) -> Seq<(Seq<char>, Seq<Delta>)> {
    interface_names(samples).map_values(
        |n: Seq<char>| (n, deltas_of(series_of(n, samples))),
    )
}

/// The name and deltas of one interface's table, as plain values.
pub open spec fn table_view(t: InterfaceSeries) -> (Seq<char>, Seq<Delta>) {
    (t.ifname@, t.deltas@)
}

/// Builds the delta table of every interface that any sample lists.
pub fn analyze(db: &Vec<Sample>) -> (r: Vec<InterfaceSeries>)
    ensures
        r@.map_values(|t: InterfaceSeries| table_view(t)) == report_of(db@),
{
    let names = get_interface_names(db);
    let ghost want = report_of(db@);
    let mut out: Vec<InterfaceSeries> = Vec::new();
    let mut k: usize = 0;
    while k < names.len()
        invariant
            0 <= k <= names@.len(),
            want == report_of(db@),
            names@.map_values(|s: String| s@) == interface_names(db@),
            out@.len() == k,
            forall|m: int| 0 <= m < k ==> table_view(#[trigger] out@[m]) == want[m],
        decreases names@.len() - k,
    {
        assert(names@.map_values(|s: String| s@)[k as int] == names@[k as int]@);
        let series = build_vec_for_interface(&names[k], db);
        let deltas = process_ifvec_table(&series);
        out.push(InterfaceSeries { ifname: names[k].clone(), deltas });
        k = k + 1;
    }
    assert(out@.map_values(|t: InterfaceSeries| table_view(t)) =~= want);
    out
}

/// The whole run over a log's lines. Every line is read before anything is
/// computed; the first line that does not parse aborts the run with its number
/// and error, and no table at all. Otherwise the tables are the report of the
/// samples that the lines read as, one per line.
pub fn process_lines(lines: &Vec<String>) -> (r: Result<Vec<InterfaceSeries>, LineError>)
    ensures
        r matches Ok(t) ==> (lines_outcome(lines_view(lines@)) matches Ok(vs) && exists|
            s: Seq<Sample>,
        |
            s.map_values(|x: Sample| sample_view(x)) == vs && t@.map_values(
                |x: InterfaceSeries| table_view(x),
            ) == report_of(s)),
        r matches Err(e) ==> (lines_outcome(lines_view(lines@)) matches Err(f) && f == (
            e.line as nat,
            e.kind,
        )),
{
    match ingest(lines) {
        Ok(store) => {
            let tables = analyze(store.all_samples());
            Ok(tables)
        },
        Err(e) => Err(e),
    }
}

/// Samples that agree as plain values give the same observations and names.
proof fn lemma_interfaces_by_view(name: Seq<char>, x: Seq<Interface>, y: Seq<Interface>, ts: Timestamp)
    requires
        x.map_values(|i: Interface| interface_fields(i)) == y.map_values(
            |i: Interface| interface_fields(i),
        ),
    ensures
        observations_in(name, x, ts) == observations_in(name, y, ts),
        names_in(x) == names_in(y),
    decreases x.len(),
{
    let fx = x.map_values(|i: Interface| interface_fields(i));
    let fy = y.map_values(|i: Interface| interface_fields(i));
    assert(x.len() == fx.len() && y.len() == fy.len());
    assert forall|i: int| 0 <= i < x.len() implies x[i].ifname@ == y[i].ifname@ && x[i].bytes_rx
        == y[i].bytes_rx && x[i].bytes_tx == y[i].bytes_tx by {
        assert(fx[i] == fy[i]);
    }
    assert(names_in(x) =~= names_in(y));
    if x.len() > 0 {
        assert(x.drop_last().map_values(|i: Interface| interface_fields(i)) =~= y.drop_last().map_values(
            |i: Interface| interface_fields(i),
        ));
        lemma_interfaces_by_view(name, x.drop_last(), y.drop_last(), ts);
    }
}

/// Sample sequences that agree as plain values give the same series and names.
proof fn lemma_samples_by_view(name: Seq<char>, a: Seq<Sample>, b: Seq<Sample>)
    requires
        a.map_values(|x: Sample| sample_view(x)) == b.map_values(|x: Sample| sample_view(x)),
    ensures
        series_of(name, a) == series_of(name, b),
        name_list(a) == name_list(b),
    decreases a.len(),
{
    let va = a.map_values(|x: Sample| sample_view(x));
    let vb = b.map_values(|x: Sample| sample_view(x));
    assert(a.len() == va.len() && b.len() == vb.len());
    if a.len() > 0 {
        let n = a.len() - 1;
        assert(va[n] == vb[n]);
        assert forall|i: int| 0 <= i < n implies sample_view(a[i]) == sample_view(b[i]) by {
            assert(va[i] == vb[i]);
        }
        assert(a.drop_last().map_values(|x: Sample| sample_view(x)) =~= b.drop_last().map_values(
            |x: Sample| sample_view(x),
        ));
        lemma_samples_by_view(name, a.drop_last(), b.drop_last());
        lemma_interfaces_by_view(name, a.last().interfaces@, b.last().interfaces@, a.last().timestamp);
    }
}

/// Reading the same log twice gives the same tables: whenever two sample
/// sequences are both what the lines read as, their reports are equal.
pub proof fn lemma_same_log_same_report(lines: Seq<Seq<char>>, a: Seq<Sample>, b: Seq<Sample>)
    requires
        lines_outcome(lines) matches Ok(vs) && a.map_values(|x: Sample| sample_view(x)) == vs
            && b.map_values(|x: Sample| sample_view(x)) == vs,
    ensures
        report_of(a) == report_of(b),
{
    lemma_samples_by_view(Seq::empty(), a, b);
    let names = interface_names(a);
    assert(names == interface_names(b));
    assert forall|i: int| 0 <= i < names.len() implies report_of(a)[i] == report_of(b)[i] by {
        lemma_samples_by_view(names[i], a, b);
    }
    assert(report_of(a) =~= report_of(b));
}

/// Within a sample whose names are unique, an interface yields one observation
/// if the sample lists it and none otherwise.
pub proof fn lemma_observations_in_sample(name: Seq<char>, ifs: Seq<Interface>, ts: Timestamp)
    requires
        names_unique(ifs),
    ensures
        observations_in(name, ifs, ts).len() == if lists(ifs, name) {
            1nat
        } else {
            0nat
        },
    decreases ifs.len(),
{
    if ifs.len() > 0 {
        let rest = ifs.drop_last();
        let last = ifs.len() - 1;
        assert(names_unique(rest));
        lemma_observations_in_sample(name, rest, ts);
        if ifs.last().ifname@ == name {
            assert(ifs[last].ifname@ == name);
            if lists(rest, name) {
                let j = choose|j: int| 0 <= j < rest.len() && #[trigger] rest[j].ifname@ == name;
                assert(ifs[j].ifname@ == ifs[last].ifname@);
            }
        } else {
            if lists(ifs, name) {
                let j = choose|j: int| 0 <= j < ifs.len() && #[trigger] ifs[j].ifname@ == name;
                assert(rest[j].ifname@ == name);
            }
            if lists(rest, name) {
                let j = choose|j: int| 0 <= j < rest.len() && #[trigger] rest[j].ifname@ == name;
                assert(ifs[j].ifname@ == name);
            }
        }
    }
}

/// An interface's observation count is the number of samples that list it, and
/// its delta table has one entry fewer, or none when it appears in fewer than
/// two samples.
pub proof fn lemma_delta_count(name: Seq<char>, samples: Seq<Sample>)
    requires
        forall|i: int| 0 <= i < samples.len() ==> names_unique(#[trigger] samples[i].interfaces@),
    ensures
        series_of(name, samples).len() == presence_count(name, samples),
        presence_count(name, samples) >= 2 ==> deltas_of(series_of(name, samples)).len()
            == presence_count(name, samples) - 1,
        presence_count(name, samples) < 2 ==> deltas_of(series_of(name, samples)).len() == 0,
    decreases samples.len(),
{
    if samples.len() > 0 {
        lemma_delta_count(name, samples.drop_last());
        lemma_observations_in_sample(name, samples.last().interfaces@, samples.last().timestamp);
    }
}

} // verus!
