//! The device registry: the in-memory table of known peers, plus the
//! record of addresses that ever completed pairing.
//!
//! The registry is the one piece of state the protocol shares between
//! tasks; whoever embeds it guards it with a lock and holds the lock
//! only across these in-memory operations. Entries are keyed by
//! address, created on first discovery, mutated in place on status
//! transitions, and never removed.

use vstd::prelude::*;
use crate::message::{Device, DeviceView, Status, device_wf};

verus! {

/// Mathematical image of the registry: the ordered device list and the
/// addresses recorded as having completed pairing.
#[verifier::ext_equal]
pub struct RegistryView {
    pub devices: Seq<DeviceView>,
    pub paired: Seq<Seq<char>>,
}

/// Some device in `devs` has the given address.
pub open spec fn contains_address(devs: Seq<DeviceView>, addr: Seq<char>) -> bool {
    exists|i: int| 0 <= i < devs.len() && devs[i].address == addr
}

/// The registry's invariant: addresses are unique on both lists, and
/// every entry keeps `paired` in step with its status.
pub open spec fn registry_wf(r: RegistryView) -> bool {
    &&& forall|i: int, j: int|
        0 <= i < j < r.devices.len() ==> r.devices[i].address != r.devices[j].address
    &&& forall|i: int| 0 <= i < r.devices.len() ==> device_wf(#[trigger] r.devices[i])
    &&& forall|i: int, j: int| 0 <= i < j < r.paired.len() ==> r.paired[i] != r.paired[j]
}

/// The entry a fresh discovery creates: `Discovered`, unless the address
/// already completed a pairing once, in which case it re-enters paired.
pub open spec fn discovered_device(
    name: Seq<char>,
    addr: Seq<char>,
    port: u16,
    was_paired: bool,
) -> DeviceView {
    DeviceView {
        name: name,
        address: addr,
        port: port,
        status: if was_paired {
            Status::Paired
        } else {
            Status::Discovered
        },
        paired: was_paired,
    }
}

/// What `upsert_discovered` does: first seen wins — a known address is
/// left exactly as it was; an unknown one is appended.
pub open spec fn spec_upsert(
    r: RegistryView,
    name: Seq<char>,
    addr: Seq<char>,
    port: u16,
) -> RegistryView {
    if contains_address(r.devices, addr) {
        r
    } else {
        RegistryView {
            devices: r.devices.push(discovered_device(name, addr, port, r.paired.contains(addr))),
            paired: r.paired,
        }
    }
}

/// What `set_status` does: every entry with the given address takes the
/// new status and paired flag; all others are untouched. Under the
/// invariant at most one entry matches; an absent address is a no-op.
pub open spec fn spec_set_status(
    r: RegistryView,
    addr: Seq<char>,
    status: Status,
    paired: bool,
) -> RegistryView {
    RegistryView {
        devices: r.devices.map_values(
            |d: DeviceView|
                if d.address == addr {
                    DeviceView { status: status, paired: paired, ..d }
                } else {
                    d
                },
        ),
        paired: r.paired,
    }
}

/// What `record_paired` does: remembers the address as once-paired,
/// without duplicating it.
pub open spec fn spec_record_paired(r: RegistryView, addr: Seq<char>) -> RegistryView {
    if r.paired.contains(addr) {
        r
    } else {
        RegistryView { devices: r.devices, paired: r.paired.push(addr) }
    }
}

/// The paired entries, in list order: the view `get_paired` and
/// `snapshot_paired_names` index into.
pub open spec fn paired_devices(devs: Seq<DeviceView>) -> Seq<DeviceView> {
    devs.filter(|d: DeviceView| d.paired)
}

/// Appending one device extends the paired view by that device exactly
/// when it is paired.
proof fn lemma_paired_devices_push(devs: Seq<DeviceView>, d: DeviceView)
    ensures
        paired_devices(devs.push(d)) == if d.paired {
            paired_devices(devs).push(d)
        } else {
            paired_devices(devs)
        },
{
    devs.lemma_filter_push(d, |d: DeviceView| d.paired);
}

/// The paired view splits at any list boundary.
proof fn lemma_paired_devices_split(devs: Seq<DeviceView>, i: int)
    requires
        0 <= i <= devs.len(),
    ensures
        paired_devices(devs) == paired_devices(devs.take(i)) + paired_devices(devs.skip(i)),
{
    assert(devs =~= devs.take(i) + devs.skip(i));
    Seq::filter_distributes_over_add(devs.take(i), devs.skip(i), |d: DeviceView| d.paired);
}

/// Concurrency-safe mapping from address to device (the embedding code
/// supplies the mutual exclusion; every operation here is one short
/// in-memory read, copy, or write).
pub struct Registry {
    devices: Vec<Device>,
    paired_records: Vec<String>,
}

impl View for Registry {
    type V = RegistryView;

    closed spec fn view(&self) -> RegistryView {
        RegistryView {
            devices: self.devices@.map_values(|d: Device| d@),
            paired: self.paired_records@.map_values(|s: String| s@),
        }
    }
}

impl Registry {
    /// An empty registry.
    pub fn new() -> (r: Registry)
        ensures
            r@.devices == Seq::<DeviceView>::empty(),
            r@.paired == Seq::<Seq<char>>::empty(),
            registry_wf(r@),
    {
        let r = Registry { devices: Vec::new(), paired_records: Vec::new() };
        proof {
            assert(r@.devices =~= Seq::<DeviceView>::empty());
            assert(r@.paired =~= Seq::<Seq<char>>::empty());
        }
        r
    }

    /// The position of the entry with this address, if any.
    fn find_index(&self, address: &String) -> (r: Option<usize>)
        ensures
            match r {
                Some(i) => i < self@.devices.len() && self@.devices[i as int].address == address@,
                None => !contains_address(self@.devices, address@),
            },
    {
        let n = self.devices.len();
        let mut k: usize = 0;
        while k < n
            invariant
                n == self.devices@.len(),
                k <= n,
                forall|i: int| 0 <= i < k ==> self@.devices[i].address != address@,
            decreases n - k,
        {
            if self.devices[k].address.eq(address) {
                return Some(k);
            }
            k = k + 1;
        }
        None
    }

    /// Whether some entry carries this address.
    pub fn has_address(&self, address: &String) -> (r: bool)
        ensures
            r == contains_address(self@.devices, address@),
    {
        self.find_index(address).is_some()
    }

    /// Whether this address once completed a pairing.
    pub fn has_paired_record(&self, address: &String) -> (r: bool)
        ensures
            r == self@.paired.contains(address@),
    {
        let n = self.paired_records.len();
        let mut k: usize = 0;
        while k < n
            invariant
                n == self.paired_records@.len(),
                k <= n,
                forall|i: int| 0 <= i < k ==> self@.paired[i] != address@,
            decreases n - k,
        {
            if self.paired_records[k].eq(address) {
                proof {
                    assert(self@.paired[k as int] == address@);
                }
                return true;
            }
            k = k + 1;
        }
        proof {
            assert(forall|i: int| 0 <= i < self@.paired.len() ==> self@.paired[i] != address@);
        }
        false
    }

    /// Remembers an address as having completed pairing.
    pub fn record_paired(&mut self, address: String)
        requires
            registry_wf(old(self)@),
        ensures
            final(self)@ == spec_record_paired(old(self)@, address@),
            registry_wf(final(self)@),
    {
        if !self.has_paired_record(&address) {
            let ghost before = self@;
            self.paired_records.push(address);
            proof {
                assert(self@.paired =~= before.paired.push(address@));
                assert(self@.devices =~= before.devices);
            }
        }
    }

    /// Ingests one discovery announcement: inserts the device if its
    /// address is unknown (first seen wins), else leaves everything as
    /// it was — rediscovery refreshes neither name nor port.
    pub fn upsert_discovered(&mut self, name: String, address: String, port: u16)
        requires
            registry_wf(old(self)@),
        ensures
            final(self)@ == spec_upsert(old(self)@, name@, address@, port),
            registry_wf(final(self)@),
    {
        if self.find_index(&address).is_none() {
            let ghost before = self@;
            let was_paired = self.has_paired_record(&address);
            let status = if was_paired {
                Status::Paired
            } else {
                Status::Discovered
            };
            let d = Device { name: name, address: address, port: port, status: status, paired: was_paired };
            self.devices.push(d);
            proof {
                assert(self@.devices =~= before.devices.push(
                    discovered_device(d.name@, d.address@, port, before.paired.contains(d.address@)),
                ));
                assert(self@.paired =~= before.paired);
                assert(self@ =~= spec_upsert(before, d.name@, d.address@, port));
            }
        }
    }

    /// Updates the entry with this address to the given status and
    /// paired flag; a no-op if the address is unknown. Callers keep the
    /// flag in step with the status, as every entry's invariant demands.
    pub fn set_status(&mut self, address: &String, status: Status, paired: bool)
        requires
            registry_wf(old(self)@),
            paired <==> status is Paired,
        ensures
            final(self)@ == spec_set_status(old(self)@, address@, status, paired),
            registry_wf(final(self)@),
    {
        let ghost before = self@;
        let n = self.devices.len();
        let mut k: usize = 0;
        while k < n
            invariant
                n == self.devices@.len(),
                self.devices@.len() == before.devices.len(),
                self.paired_records@.map_values(|s: String| s@) == before.paired,
                k <= n,
                forall|i: int|
                    k <= i < n ==> self.devices@.map_values(|d: Device| d@)[i] == before.devices[i],
                forall|i: int|
                    0 <= i < k ==> self.devices@.map_values(|d: Device| d@)[i]
                        == spec_set_status(before, address@, status, paired).devices[i],
            decreases n - k,
        {
            if self.devices[k].address.eq(address) {
                let name = self.devices[k].name.clone();
                let addr = self.devices[k].address.clone();
                let port = self.devices[k].port;
                let d = Device { name: name, address: addr, port: port, status: status, paired: paired };
                self.devices[k] = d;
            }
            k = k + 1;
        }
        proof {
            assert(self@.devices =~= spec_set_status(before, address@, status, paired).devices);
            assert(self@.paired =~= before.paired);
        }
    }

    /// The device at this list position, if the position exists.
    pub fn get(&self, index: usize) -> (r: Option<Device>)
        ensures
            match r {
                Some(d) => index < self@.devices.len() && d@ == self@.devices[index as int],
                None => index >= self@.devices.len(),
            },
    {
        if index < self.devices.len() {
            Some(clone_device(&self.devices[index]))
        } else {
            None
        }
    }

    /// The paired device at this position of the paired-only view, if
    /// that position exists; its ordering is independent of `get`'s.
    pub fn get_paired(&self, index: usize) -> (r: Option<Device>)
        ensures
            match r {
                Some(d) => index < paired_devices(self@.devices).len() && d@ == paired_devices(
                    self@.devices,
                )[index as int],
                None => index >= paired_devices(self@.devices).len(),
            },
    {
        let ghost devs = self@.devices;
        let n = self.devices.len();
        let mut k: usize = 0;
        let mut seen: usize = 0;
        while k < n
            invariant
                n == self.devices@.len(),
                devs == self@.devices,
                k <= n,
                seen == paired_devices(devs.take(k as int)).len(),
                seen <= index,
            decreases n - k,
        {
            proof {
                assert(devs.take(k as int + 1) =~= devs.take(k as int).push(devs[k as int]));
                lemma_paired_devices_push(devs.take(k as int), devs[k as int]);
            }
            if self.devices[k].paired {
                if seen == index {
                    let d = clone_device(&self.devices[k]);
                    proof {
                        assert(paired_devices(devs.take(k as int + 1))[index as int] == devs[
                            k as int
                        ]);
                        lemma_paired_devices_split(devs, k as int + 1);
                        assert(paired_devices(devs)[index as int] == devs[k as int]);
                    }
                    return Some(d);
                }
                seen = seen + 1;
            }
            k = k + 1;
        }
        proof {
            assert(devs.take(n as int) =~= devs);
            assert(index >= paired_devices(devs).len());
        }
        None
    }

    /// An ordered copy of the whole device list.
    pub fn snapshot(&self) -> (r: Vec<Device>)
        ensures
            r@.len() == self@.devices.len(),
            forall|i: int| 0 <= i < r@.len() ==> #[trigger] r@[i]@ == self@.devices[i],
    {
        let n = self.devices.len();
        let mut out: Vec<Device> = Vec::new();
        let mut k: usize = 0;
        while k < n
            invariant
                n == self.devices@.len(),
                k <= n,
                out@.len() == k,
                forall|i: int| 0 <= i < k ==> #[trigger] out@[i]@ == self@.devices[i],
            decreases n - k,
        {
            out.push(clone_device(&self.devices[k]));
            k = k + 1;
        }
        out
    }

    /// The names of the paired devices, in the paired-only ordering.
    pub fn snapshot_paired_names(&self) -> (r: Vec<String>)
        ensures
            r@.len() == paired_devices(self@.devices).len(),
            forall|i: int|
                0 <= i < r@.len() ==> #[trigger] r@[i]@ == paired_devices(self@.devices)[i].name,
    {
        let ghost devs = self@.devices;
        let n = self.devices.len();
        let mut out: Vec<String> = Vec::new();
        let mut k: usize = 0;
        while k < n
            invariant
                n == self.devices@.len(),
                devs == self@.devices,
                k <= n,
                out@.len() == paired_devices(devs.take(k as int)).len(),
                forall|i: int|
                    0 <= i < out@.len() ==> #[trigger] out@[i]@ == paired_devices(
                        devs.take(k as int),
                    )[i].name,
            decreases n - k,
        {
            proof {
                assert(devs.take(k as int + 1) =~= devs.take(k as int).push(devs[k as int]));
                lemma_paired_devices_push(devs.take(k as int), devs[k as int]);
            }
            if self.devices[k].paired {
                out.push(self.devices[k].name.clone());
            }
            k = k + 1;
        }
        proof {
            assert(devs.take(n as int) =~= devs);
        }
        out
    }
}

/// A field-for-field copy of a device.
pub fn clone_device(d: &Device) -> (r: Device)
    ensures
        r@ == d@,
{
    Device {
        name: d.name.clone(),
        address: d.address.clone(),
        port: d.port,
        status: d.status,
        paired: d.paired,
    }
}

/// A status update rewrites exactly the matching entries and nothing
/// else: whatever state an entry is in — `Paired` included — a
/// disconnect, a pairing, or any other transition lands it on the given
/// status and paired flag, with name, address, and port untouched, and
/// every other entry stays word for word as it was.
pub proof fn lemma_set_status_entry(
    r: RegistryView,
    addr: Seq<char>,
    status: Status,
    paired: bool,
    i: int,
)
    requires
        0 <= i < r.devices.len(),
    ensures
        spec_set_status(r, addr, status, paired).devices.len() == r.devices.len(),
        ({
            let d = spec_set_status(r, addr, status, paired).devices[i];
            &&& d.name == r.devices[i].name
            &&& d.address == r.devices[i].address
            &&& d.port == r.devices[i].port
            &&& d.status == (if r.devices[i].address == addr {
                status
            } else {
                r.devices[i].status
            })
            &&& d.paired == (if r.devices[i].address == addr {
                paired
            } else {
                r.devices[i].paired
            })
        }),
{
}

/// Upserting an address that the registry already holds changes nothing:
/// in particular, a second `upsert_discovered` with the same address —
/// whatever name and port it carries — is a no-op, so rediscovery never
/// duplicates an entry nor alters the one first seen.
pub proof fn lemma_upsert_idempotent(
    r: RegistryView,
    name1: Seq<char>,
    name2: Seq<char>,
    addr: Seq<char>,
    port1: u16,
    port2: u16,
)
    ensures
        spec_upsert(spec_upsert(r, name1, addr, port1), name2, addr, port2) == spec_upsert(
            r,
            name1,
            addr,
            port1,
        ),
{
    let r1 = spec_upsert(r, name1, addr, port1);
    if contains_address(r.devices, addr) {
        assert(contains_address(r1.devices, addr));
    } else {
        assert(r1.devices[r.devices.len() as int].address == addr);
        assert(contains_address(r1.devices, addr));
    }
}

} // verus!
