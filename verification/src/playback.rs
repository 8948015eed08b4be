//! Player decisions: the device query of a player call, and which device a
//! playlist is started on.
use vstd::prelude::*;
use vstd::string::StringExecFns;

use crate::models::Device;

verus! {

/// The `device_id` query of a player call, when a device is named.
pub fn device_query(device_id: Option<&str>) -> (r: Vec<(&'static str, String)>)
    ensures
        device_id is None ==> r@.len() == 0,
        device_id matches Some(d) ==> r@.len() == 1 && r@[0].0@ == "device_id"@ && r@[0].1@ == d@,
{
    let mut r: Vec<(&'static str, String)> = Vec::new();
    match device_id {
        Some(d) => {
            r.push(("device_id", String::from_str(d)));
        },
        None => {},
    }
    r
}

/// Where to start a playlist: the active device (shuffle off first), else
/// the first usable device (started, then shuffle off), else nowhere.
#[derive(Debug, Clone, Copy, PartialEq, Eq, Structural)]
pub enum DevicePick {
    Active(usize),
    Fallback(usize),
    NoDevice,
}

pub open spec fn is_first_active(ds: Seq<Device>, k: int) -> bool {
    &&& 0 <= k < ds.len()
    &&& ds[k].is_active && !ds[k].is_restricted
    &&& forall|t: int| 0 <= t < k ==> !(#[trigger] ds[t].is_active && !ds[t].is_restricted)
}

pub open spec fn is_first_usable(ds: Seq<Device>, k: int) -> bool {
    &&& 0 <= k < ds.len()
    &&& !ds[k].is_restricted && ds[k].id is Some
    &&& forall|t: int| 0 <= t < k ==> !(!(#[trigger] ds[t].is_restricted) && ds[t].id is Some)
}

pub fn pick_device(devices: &Vec<Device>) -> (r: DevicePick)
    ensures
        match r {
            DevicePick::Active(k) => is_first_active(devices@, k as int),
            DevicePick::Fallback(k) => (forall|t: int| 0 <= t < devices@.len() ==> !(#[trigger] devices@[t].is_active
                && !devices@[t].is_restricted)) && is_first_usable(devices@, k as int),
            DevicePick::NoDevice => forall|t: int| 0 <= t < devices@.len() ==> !(#[trigger] devices@[t].is_active
                && !devices@[t].is_restricted) && !(!devices@[t].is_restricted && devices@[t].id is Some),
        },
{
    let mut k: usize = 0;
    while k < devices.len()
        invariant
            k <= devices@.len(),
            forall|t: int| 0 <= t < k ==> !(#[trigger] devices@[t].is_active && !devices@[t].is_restricted),
        decreases devices@.len() - k,
    {
        if devices[k].is_active && !devices[k].is_restricted {
            return DevicePick::Active(k);
        }
        k += 1;
    }
    let mut j: usize = 0;
    while j < devices.len()
        invariant
            j <= devices@.len(),
            forall|t: int| 0 <= t < devices@.len() ==> !(#[trigger] devices@[t].is_active && !devices@[t].is_restricted),
            forall|t: int| 0 <= t < j ==> !(!(#[trigger] devices@[t].is_restricted) && devices@[t].id is Some),
        decreases devices@.len() - j,
    {
        if !devices[j].is_restricted && devices[j].id.is_some() {
            return DevicePick::Fallback(j);
        }
        j += 1;
    }
    DevicePick::NoDevice
}

} // verus!
