//! How the devices that a discovery session resolved are merged into the known devices:
//! deduplicated by name, a known device keeping the modules it hosts.
use vstd::prelude::*;
use crate::model::DeviceView;
use crate::store::{lemma_strings_index, strings_index};

verus! {

pub open spec fn device_names(ds: Seq<DeviceView>) -> Seq<Seq<char>> {
    ds.map_values(|d: DeviceView| d.name)
}

/// Merges one resolved device `d`: a device of the same name takes its description and health
/// and keeps its modules; a new name is added at the end.
pub open spec fn merged(ds: Seq<DeviceView>, d: DeviceView) -> Seq<DeviceView> {
    match strings_index(device_names(ds), d.name) {
        Some(i) => ds.update(i, DeviceView { modules: ds[i].modules, ..d }),
        None => ds.push(d),
    }
}

/// Merges the resolved devices `found`, in order.
pub open spec fn scanned(ds: Seq<DeviceView>, found: Seq<DeviceView>) -> Seq<DeviceView>
    decreases found.len(),
{
    if found.len() == 0 {
        ds
    } else {
        merged(scanned(ds, found.drop_last()), found.last())
    }
}

/// Merging keeps every known name, in place, and adds the merged device's name.
pub proof fn lemma_merged_names(ds: Seq<DeviceView>, d: DeviceView)
    ensures
        device_names(merged(ds, d)).contains(d.name),
        strings_index(device_names(ds), d.name) is Some ==> device_names(merged(ds, d)) == device_names(ds),
        strings_index(device_names(ds), d.name) is None ==> device_names(merged(ds, d)) == device_names(ds).push(d.name),
{
    let names = device_names(ds);
    lemma_strings_index(names, d.name);
    match strings_index(names, d.name) {
        Some(i) => {
            assert(device_names(merged(ds, d)) =~= names);
            assert(device_names(merged(ds, d))[i] == d.name);
        },
        None => {
            assert(device_names(merged(ds, d)) =~= names.push(d.name));
            assert(device_names(merged(ds, d))[ds.len() as int] == d.name);
        },
    }
}

/// After a scan, every resolved name is known.
pub proof fn lemma_scanned_knows(ds: Seq<DeviceView>, found: Seq<DeviceView>)
    ensures
        forall|k: int| 0 <= k < found.len() ==> device_names(scanned(ds, found)).contains(#[trigger] found[k].name),
        forall|x: Seq<char>| #[trigger] device_names(ds).contains(x) ==> device_names(scanned(ds, found)).contains(x),
    decreases found.len(),
{
    if found.len() > 0 {
        let rest = found.drop_last();
        let prev = scanned(ds, rest);
        lemma_scanned_knows(ds, rest);
        lemma_merged_names(prev, found.last());
        lemma_strings_index(device_names(prev), found.last().name);
        assert forall|x: Seq<char>| #[trigger] device_names(prev).contains(x) implies device_names(scanned(ds, found)).contains(x) by {
            let j = choose|j: int| 0 <= j < device_names(prev).len() && device_names(prev)[j] == x;
            assert(device_names(scanned(ds, found))[j] == x);
        }
        assert forall|k: int| 0 <= k < found.len() implies device_names(scanned(ds, found)).contains(#[trigger] found[k].name) by {
            if k < found.len() - 1 {
                assert(rest[k] == found[k]);
                assert(device_names(prev).contains(rest[k].name));
            }
        }
    }
}

/// Merging devices whose names are all known changes no name and adds no device.
pub proof fn lemma_scanned_known(ds: Seq<DeviceView>, found: Seq<DeviceView>)
    requires
        forall|k: int| 0 <= k < found.len() ==> device_names(ds).contains(#[trigger] found[k].name),
    ensures
        device_names(scanned(ds, found)) == device_names(ds),
    decreases found.len(),
{
    if found.len() > 0 {
        let rest = found.drop_last();
        assert forall|k: int| 0 <= k < rest.len() implies device_names(ds).contains(#[trigger] rest[k].name) by {
            assert(rest[k] == found[k]);
        }
        lemma_scanned_known(ds, rest);
        let prev = scanned(ds, rest);
        assert(device_names(ds).contains(found[found.len() - 1].name));
        lemma_strings_index(device_names(prev), found.last().name);
        lemma_merged_names(prev, found.last());
    }
}

/// Scanning again with the same resolved devices adds no device and changes no name: a second
/// identical scan makes no duplicate.
pub proof fn lemma_rescan_adds_nothing(ds: Seq<DeviceView>, found: Seq<DeviceView>)
    ensures
        device_names(scanned(scanned(ds, found), found)) == device_names(scanned(ds, found)),
        scanned(scanned(ds, found), found).len() == scanned(ds, found).len(),
{
    lemma_scanned_knows(ds, found);
    lemma_scanned_known(scanned(ds, found), found);
    assert(device_names(scanned(scanned(ds, found), found)).len() == scanned(scanned(ds, found), found).len());
}

/// Scanning devices with distinct names, none of them known yet, adds each of them.
pub proof fn lemma_scan_adds_new(ds: Seq<DeviceView>, found: Seq<DeviceView>)
    requires
        forall|i: int, j: int| 0 <= i < j < found.len() ==> found[i].name != found[j].name,
        forall|k: int| 0 <= k < found.len() ==> !device_names(ds).contains(#[trigger] found[k].name),
    ensures
        scanned(ds, found) == ds + found,
    decreases found.len(),
{
    if found.len() > 0 {
        let rest = found.drop_last();
        assert forall|k: int| 0 <= k < rest.len() implies !device_names(ds).contains(#[trigger] rest[k].name) by {
            assert(rest[k] == found[k]);
        }
        lemma_scan_adds_new(ds, rest);
        let prev = scanned(ds, rest);
        let last = found.last();
        lemma_strings_index(device_names(prev), last.name);
        if strings_index(device_names(prev), last.name) is Some {
            let i = strings_index(device_names(prev), last.name)->Some_0;
            if i < ds.len() {
                assert(device_names(ds)[i] == last.name);
                assert(device_names(ds).contains(last.name));
            } else {
                assert(prev[i] == rest[i - ds.len()]);
                assert(rest[i - ds.len()] == found[i - ds.len()]);
            }
        }
        assert(ds + found =~= (ds + rest).push(last));
    }
}

} // verus!
