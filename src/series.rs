//! Interface discovery and per-interface observation sequences.
use vstd::prelude::*;

use crate::model::{
    Interface, Observation, Sample, first_occurrences, interface_names, name_list, names_in,
    observations_in, series_of,
};

verus! {

/// Projects the samples onto interface `ifname`: one observation for each time
/// a sample lists it, in sample order; samples that do not list it are skipped.
pub fn build_vec_for_interface(ifname: &String, db: &Vec<Sample>) -> (r: Vec<Observation>)
    ensures
        r@ == series_of(ifname@, db@),
{
    let mut out: Vec<Observation> = Vec::new();
    let mut i: usize = 0;
    while i < db.len()
        invariant
            0 <= i <= db@.len(),
            out@ == series_of(ifname@, db@.take(i as int)),
        decreases db@.len() - i,
    {
        let entry = &db[i];
        let ghost before = out@;
        let mut j: usize = 0;
        while j < entry.interfaces.len()
            invariant
                0 <= j <= entry.interfaces@.len(),
                out@ == before + observations_in(
                    ifname@,
                    entry.interfaces@.take(j as int),
                    entry.timestamp,
                ),
            decreases entry.interfaces@.len() - j,
        {
            let ifentry = &entry.interfaces[j];
            proof {
                assert(entry.interfaces@.take(j + 1).drop_last() =~= entry.interfaces@.take(
                    j as int,
                ));
            }
            if ifentry.ifname == *ifname {
                out.push(
                    Observation {
                        timestamp: entry.timestamp,
                        bytes_rx: ifentry.bytes_rx,
                        bytes_tx: ifentry.bytes_tx,
                    },
                );
                proof {
                    assert(out@ =~= before + observations_in(
                        ifname@,
                        entry.interfaces@.take(j + 1),
                        entry.timestamp,
                    ));
                }
            }
            j = j + 1;
        }
        proof {
            assert(entry.interfaces@.take(entry.interfaces@.len() as int) =~= entry.interfaces@);
            assert(db@.take(i + 1).drop_last() =~= db@.take(i as int));
        }
        i = i + 1;
    }
    proof {
        assert(db@.take(db@.len() as int) =~= db@);
    }
    out
}

/// Whether `names` holds a string equal to `name`.
fn contains_name(names: &Vec<String>, name: &String) -> (r: bool)
    ensures
        r == names@.map_values(|s: String| s@).contains(name@),
{
    let ghost views = names@.map_values(|s: String| s@);
    let mut k: usize = 0;
    while k < names.len()
        invariant
            0 <= k <= names@.len(),
            views == names@.map_values(|s: String| s@),
            forall|m: int| 0 <= m < k ==> views[m] != name@,
        decreases names@.len() - k,
    {
        if names[k] == *name {
            assert(views[k as int] == name@);
            return true;
        }
        k = k + 1;
    }
    false
}

/// The distinct interface names found across all samples, each once, in order of
/// first appearance; no samples give no names.
pub fn get_interface_names(db: &Vec<Sample>) -> (r: Vec<String>)
    ensures
        r@.map_values(|s: String| s@) == interface_names(db@),
{
    let mut names: Vec<String> = Vec::new();
    let mut i: usize = 0;
    while i < db.len()
        invariant
            0 <= i <= db@.len(),
            names@.map_values(|s: String| s@) == first_occurrences(name_list(db@.take(i as int))),
        decreases db@.len() - i,
    {
        let entry = &db[i];
        let ghost prefix = name_list(db@.take(i as int));
        let mut j: usize = 0;
        while j < entry.interfaces.len()
            invariant
                0 <= j <= entry.interfaces@.len(),
                names@.map_values(|s: String| s@) == first_occurrences(
                    prefix + names_in(entry.interfaces@.take(j as int)),
                ),
            decreases entry.interfaces@.len() - j,
        {
            let ifdata: &Interface = &entry.interfaces[j];
            let ghost seen = prefix + names_in(entry.interfaces@.take(j as int));
            let ghost next = prefix + names_in(entry.interfaces@.take(j + 1));
            proof {
                assert(next.drop_last() =~= seen);
                assert(next.last() == ifdata.ifname@);
            }
            if !contains_name(&names, &ifdata.ifname) {
                names.push(ifdata.ifname.clone());
                assert(names@.map_values(|s: String| s@) =~= first_occurrences(next));
            }
            j = j + 1;
        }
        proof {
            assert(entry.interfaces@.take(entry.interfaces@.len() as int) =~= entry.interfaces@);
            assert(db@.take(i + 1).drop_last() =~= db@.take(i as int));
        }
        i = i + 1;
    }
    proof {
        assert(db@.take(db@.len() as int) =~= db@);
    }
    names
}

} // verus!
