//! The lease table: which device is reserved for which smoke task, and until
//! when.
//!
//! ```text
//! Idle --acquire--> Leased(task, expiry) --release----------> Idle
//!                                        --sweep at expiry--> Idle
//! ```
use vstd::prelude::*;

use crate::text::same_text;

verus! {

/// A device reserved for a running smoke task.
pub struct Lease {
    pub serial: String,
    pub server_host: String,
    pub server_port: u16,
    pub task_id: String,
    /// When the lease lapses, in seconds since the Unix epoch.
    pub expires_at: u64,
}

/// A device, and the ADB server that it is reached through.
pub struct DeviceRef {
    pub serial: String,
    pub server_host: String,
    pub server_port: u16,
}

/// A [`DeviceRef`] in terms of text.
pub struct Device {
    pub serial: Seq<char>,
    pub host: Seq<char>,
    pub port: u16,
}

/// What a device is leased for.
pub struct Terms {
    pub host: Seq<char>,
    pub port: u16,
    pub task: Seq<char>,
    pub expires_at: u64,
}

impl DeepView for DeviceRef {
    type V = Device;

    open spec fn deep_view(&self) -> Device {
        Device { serial: self.serial@, host: self.server_host@, port: self.server_port }
    }
}

impl DeepView for Lease {
    type V = (Seq<char>, Terms);

    open spec fn deep_view(&self) -> (Seq<char>, Terms) {
        (
            self.serial@,
            Terms {
                host: self.server_host@,
                port: self.server_port,
                task: self.task_id@,
                expires_at: self.expires_at,
            },
        )
    }
}

impl Clone for DeviceRef {
    fn clone(&self) -> (r: Self)
        ensures
            r == *self,
    {
        DeviceRef {
            serial: self.serial.clone(),
            server_host: self.server_host.clone(),
            server_port: self.server_port,
        }
    }
}

impl Clone for Lease {
    fn clone(&self) -> (r: Self)
        ensures
            r == *self,
    {
        Lease {
            serial: self.serial.clone(),
            server_host: self.server_host.clone(),
            server_port: self.server_port,
            task_id: self.task_id.clone(),
            expires_at: self.expires_at,
        }
    }
}

/// The leases in force, at most one per device serial.
pub struct LeaseTable {
    entries: Vec<Lease>,
}

spec fn map_of(entries: Seq<Lease>) -> Map<Seq<char>, Terms>
    decreases entries.len(),
{
    if entries.len() == 0 {
        Map::empty()
    } else {
        let e = entries.last().deep_view();
        map_of(entries.drop_last()).insert(e.0, e.1)
    }
}

spec fn distinct(entries: Seq<Lease>) -> bool {
    forall|i: int, j: int|
        0 <= i < j < entries.len() ==> (#[trigger] entries[i]).serial@ != (
        #[trigger] entries[j]).serial@
}

proof fn lemma_map_of(entries: Seq<Lease>)
    requires
        distinct(entries),
    ensures
        map_of(entries).dom().finite(),
        map_of(entries).dom().len() == entries.len(),
        forall|i: int|
            0 <= i < entries.len() ==> map_of(entries).dom().contains(
                (#[trigger] entries[i]).serial@,
            ) && map_of(entries)[entries[i].serial@] == entries[i].deep_view().1,
        forall|s: Seq<char>| #[trigger]
            map_of(entries).dom().contains(s) ==> exists|i: int|
                0 <= i < entries.len() && (#[trigger] entries[i]).serial@ == s,
    decreases entries.len(),
{
    if entries.len() > 0 {
        let init = entries.drop_last();
        assert(forall|i: int| 0 <= i < init.len() ==> #[trigger] init[i] == entries[i]);
        lemma_map_of(init);
        let e = entries.last();
        assert(!map_of(init).dom().contains(e.serial@)) by {
            if map_of(init).dom().contains(e.serial@) {
                let i = choose|i: int|
                    0 <= i < init.len() && (#[trigger] init[i]).serial@ == e.serial@;
                assert(entries[i].serial@ != entries[entries.len() - 1].serial@);
            }
        }
        assert(map_of(entries).dom() =~= map_of(init).dom().insert(e.serial@));
        assert forall|i: int| 0 <= i < entries.len() implies map_of(entries).dom().contains(
            (#[trigger] entries[i]).serial@,
        ) && map_of(entries)[entries[i].serial@] == entries[i].deep_view().1 by {
            if i < init.len() {
                assert(init[i] == entries[i]);
                assert(entries[i].serial@ != entries[entries.len() - 1].serial@);
            }
        }
        assert forall|s: Seq<char>| #[trigger]
            map_of(entries).dom().contains(s) implies exists|i: int|
            0 <= i < entries.len() && (#[trigger] entries[i]).serial@ == s by {
            if s == e.serial@ {
                assert(entries[entries.len() - 1].serial@ == s);
            } else {
                let i = choose|i: int| 0 <= i < init.len() && (#[trigger] init[i]).serial@ == s;
                assert(entries[i].serial@ == s);
            }
        }
    }
}

/// A reason for a lease to end.
enum Ending {
    Serial(String),
    Task(String),
    Lapsed(u64),
}

spec fn ended(ending: Ending, serial: Seq<char>, terms: Terms) -> bool {
    match ending {
        Ending::Serial(s) => serial == s@,
        Ending::Task(t) => terms.task == t@,
        Ending::Lapsed(now) => terms.expires_at <= now,
    }
}

spec fn without(m: Map<Seq<char>, Terms>, ending: Ending) -> Map<Seq<char>, Terms> {
    Map::new(|s: Seq<char>| m.dom().contains(s) && !ended(ending, s, m[s]), |s: Seq<char>| m[s])
}

fn ends(ending: &Ending, e: &Lease) -> (r: bool)
    ensures
        r == ended(*ending, e.serial@, e.deep_view().1),
{
    match ending {
        Ending::Serial(s) => same_text(s.as_str(), e.serial.as_str()),
        Ending::Task(t) => same_text(t.as_str(), e.task_id.as_str()),
        Ending::Lapsed(now) => e.expires_at <= *now,
    }
}

/// The serials that `task` holds.
pub open spec fn held_by(leases: Map<Seq<char>, Terms>, task: Seq<char>) -> Set<Seq<char>> {
    leases.dom().filter(|s: Seq<char>| leases[s].task == task)
}

/// The leases that `task` does not hold.
pub open spec fn not_held_by(leases: Map<Seq<char>, Terms>, task: Seq<char>) -> Map<
    Seq<char>,
    Terms,
> {
    Map::new(
        |s: Seq<char>| leases.dom().contains(s) && leases[s].task != task,
        |s: Seq<char>| leases[s],
    )
}

/// The serials whose leases have lapsed by `now`.
pub open spec fn lapsed(leases: Map<Seq<char>, Terms>, now: u64) -> Set<Seq<char>> {
    leases.dom().filter(|s: Seq<char>| leases[s].expires_at <= now)
}

/// The leases that have not lapsed by `now`.
pub open spec fn in_force(leases: Map<Seq<char>, Terms>, now: u64) -> Map<Seq<char>, Terms> {
    Map::new(
        |s: Seq<char>| leases.dom().contains(s) && leases[s].expires_at > now,
        |s: Seq<char>| leases[s],
    )
}

/// The terms on which `d` is leased to `task`.
pub open spec fn terms_for(d: Device, task: Seq<char>, expires_at: u64) -> Terms {
    Terms { host: d.host, port: d.port, task, expires_at }
}

/// `leases` after every one of `devices` was leased to `task`, in order.
pub open spec fn granting(
    leases: Map<Seq<char>, Terms>,
    devices: Seq<Device>,
    task: Seq<char>,
    expires_at: u64,
) -> Map<Seq<char>, Terms>
    decreases devices.len(),
{
    if devices.len() == 0 {
        leases
    } else {
        let d = devices.last();
        granting(leases, devices.drop_last(), task, expires_at).insert(
            d.serial,
            terms_for(d, task, expires_at),
        )
    }
}

impl View for LeaseTable {
    type V = Map<Seq<char>, Terms>;

    /// The terms of the lease on each leased serial.
    closed spec fn view(&self) -> Map<Seq<char>, Terms> {
        map_of(self.entries@)
    }
}

impl LeaseTable {
    /// At most one lease per serial.
    pub closed spec fn well_formed(self) -> bool {
        distinct(self.entries@)
    }

    /// A table without leases.
    pub fn new() -> (r: Self)
        ensures
            r.well_formed(),
            r@ == Map::<Seq<char>, Terms>::empty(),
    {
        LeaseTable { entries: Vec::new() }
    }

    /// The number of leases in force.
    pub fn len(&self) -> (r: usize)
        requires
            self.well_formed(),
        ensures
            r == self@.dom().len(),
            self@.dom().finite(),
    {
        proof {
            lemma_map_of(self.entries@);
        }
        self.entries.len()
    }

    /// Whether `serial` is leased.
    pub fn is_leased(&self, serial: &str) -> (r: bool)
        requires
            self.well_formed(),
        ensures
            r == self@.dom().contains(serial@),
    {
        self.holder(serial).is_some()
    }

    /// The task that `serial` is leased to.
    pub fn holder(&self, serial: &str) -> (r: Option<String>)
        requires
            self.well_formed(),
        ensures
            r.deep_view() == (if self@.dom().contains(serial@) {
                Some(self@[serial@].task)
            } else {
                None
            }),
    {
        proof {
            lemma_map_of(self.entries@);
        }
        let mut i: usize = 0;
        while i < self.entries.len()
            invariant
                i <= self.entries@.len(),
                forall|j: int| 0 <= j < i ==> (#[trigger] self.entries@[j]).serial@ != serial@,
                forall|k: int|
                    0 <= k < self.entries@.len() ==> self@.dom().contains(
                        (#[trigger] self.entries@[k]).serial@,
                    ) && self@[self.entries@[k].serial@] == self.entries@[k].deep_view().1,
            decreases self.entries@.len() - i,
        {
            if same_text(self.entries[i].serial.as_str(), serial) {
                return Some(self.entries[i].task_id.clone());
            }
            i += 1;
        }
        None
    }

    fn end(&mut self, ending: &Ending) -> (r: usize)
        requires
            old(self).well_formed(),
        ensures
            final(self).well_formed(),
            final(self)@ == without(old(self)@, *ending),
            r == old(self).entries@.len() - final(self).entries@.len(),
    {
        let mut kept: Vec<Lease> = Vec::new();
        let n: usize = self.entries.len();
        let mut i: usize = 0;
        let ghost all = self.entries@;
        proof {
            assert(map_of(all.take(0)) =~= Map::empty());
            assert(map_of(kept@) =~= without(map_of(all.take(0)), *ending));
        }
        while i < n
            invariant
                i <= n,
                n == all.len(),
                all == self.entries@,
                distinct(all),
                distinct(kept@),
                kept@.len() <= i,
                forall|k: int|
                    0 <= k < kept@.len() ==> exists|m: int|
                        0 <= m < i && #[trigger] all[m].serial@ == (#[trigger] kept@[k]).serial@,
                map_of(kept@) == without(map_of(all.take(i as int)), *ending),
            decreases n - i,
        {
            let ghost before = kept@;
            let ghost e = all[i as int];
            proof {
                let next = all.take(i + 1);
                assert(next.drop_last() =~= all.take(i as int));
                assert(next.last() == e);
                assert forall|a: int, b: int| 0 <= a < b < all.take(i as int).len() implies (
                #[trigger] all.take(i as int)[a]).serial@ != (#[trigger] all.take(
                    i as int,
                )[b]).serial@ by {
                    assert(all[a].serial@ != all[b].serial@);
                }
                lemma_map_of(all.take(i as int));
                assert(!map_of(all.take(i as int)).dom().contains(e.serial@)) by {
                    if map_of(all.take(i as int)).dom().contains(e.serial@) {
                        let m = choose|m: int|
                            0 <= m < all.take(i as int).len() && (#[trigger] all.take(
                                i as int,
                            )[m]).serial@ == e.serial@;
                        assert(all[m].serial@ != all[i as int].serial@);
                    }
                }
            }
            if !ends(ending, &self.entries[i]) {
                kept.push(self.entries[i].clone());
                proof {
                    assert(kept@.drop_last() =~= before);
                    assert forall|a: int, b: int| 0 <= a < b < kept@.len() implies (
                    #[trigger] kept@[a]).serial@ != (#[trigger] kept@[b]).serial@ by {
                        assert(kept@[a] == before[a]);
                        if b < before.len() {
                            assert(kept@[b] == before[b]);
                        } else {
                            let m = choose|m: int|
                                0 <= m < i && #[trigger] all[m].serial@ == before[a].serial@;
                            assert(all[m].serial@ != all[i as int].serial@);
                        }
                    }
                    assert forall|k: int| 0 <= k < kept@.len() implies exists|m: int|
                        0 <= m < i + 1 && #[trigger] all[m].serial@ == (
                        #[trigger] kept@[k]).serial@ by {
                        if k < before.len() {
                            assert(kept@[k] == before[k]);
                        } else {
                            assert(all[i as int].serial@ == kept@[k].serial@);
                        }
                    }
                }
            }
            proof {
                assert(map_of(kept@) =~= without(map_of(all.take(i + 1)), *ending));
            }
            i += 1;
        }
        proof {
            assert(all.take(n as int) =~= all);
        }
        let removed = n - kept.len();
        self.entries = kept;
        removed
    }

    /// Leases `d` to `task_id`, in place of any lease on the same serial.
    pub fn insert(&mut self, d: &DeviceRef, task_id: &str, expires_at: u64) -> (r: Lease)
        requires
            old(self).well_formed(),
        ensures
            final(self).well_formed(),
            final(self)@ == old(self)@.insert(
                d.serial@,
                terms_for(d.deep_view(), task_id@, expires_at),
            ),
            r.deep_view() == (d.serial@, terms_for(d.deep_view(), task_id@, expires_at)),
    {
        let ending = Ending::Serial(d.serial.clone());
        let ghost before = self@;
        let _ = self.end(&ending);
        let lease = Lease {
            serial: d.serial.clone(),
            server_host: d.server_host.clone(),
            server_port: d.server_port,
            task_id: task_id.to_owned(),
            expires_at,
        };
        let ghost rest = self.entries@;
        proof {
            lemma_map_of(rest);
        }
        self.entries.push(lease.clone());
        proof {
            let all = self.entries@;
            assert(all.drop_last() =~= rest);
            assert forall|i: int, j: int| 0 <= i < j < all.len() implies (
            #[trigger] all[i]).serial@ != (#[trigger] all[j]).serial@ by {
                assert(all[i] == rest[i]);
                if j < rest.len() {
                    assert(all[j] == rest[j]);
                } else {
                    assert(map_of(rest).dom().contains(rest[i].serial@));
                }
            }
            assert(map_of(all) =~= before.insert(
                d.serial@,
                terms_for(d.deep_view(), task_id@, expires_at),
            ));
        }
        lease
    }

    /// Leases all of `devices` to `task_id` until `expires_at`.
    pub fn grant(&mut self, devices: &Vec<DeviceRef>, task_id: &str, expires_at: u64) -> (r: Vec<
        Lease,
    >)
        requires
            old(self).well_formed(),
        ensures
            final(self).well_formed(),
            final(self)@ == granting(old(self)@, devices.deep_view(), task_id@, expires_at),
            r.deep_view() == devices.deep_view().map_values(
                |d: Device| (d.serial, terms_for(d, task_id@, expires_at)),
            ),
    {
        let mut leases: Vec<Lease> = Vec::new();
        let mut i: usize = 0;
        let ghost all = devices.deep_view();
        while i < devices.len()
            invariant
                i <= devices.len(),
                all == devices.deep_view(),
                self.well_formed(),
                self@ == granting(old(self)@, all.take(i as int), task_id@, expires_at),
                leases@.len() == i,
                forall|k: int|
                    0 <= k < i ==> (#[trigger] leases@[k]).deep_view() == (
                        all[k].serial,
                        terms_for(all[k], task_id@, expires_at),
                    ),
            decreases devices.len() - i,
        {
            proof {
                assert(all.take(i + 1).drop_last() =~= all.take(i as int));
                assert(all.take(i + 1).last() == devices[i as int].deep_view());
            }
            let lease = self.insert(&devices[i], task_id, expires_at);
            leases.push(lease);
            i += 1;
        }
        proof {
            assert(all.take(i as int) =~= all);
            assert(leases.deep_view() =~= all.map_values(
                |d: Device| (d.serial, terms_for(d, task_id@, expires_at)),
            ));
        }
        leases
    }

    /// Ends every lease of `task_id` and returns how many there were.
    pub fn release(&mut self, task_id: &str) -> (r: usize)
        requires
            old(self).well_formed(),
        ensures
            final(self).well_formed(),
            final(self)@ == not_held_by(old(self)@, task_id@),
            r == held_by(old(self)@, task_id@).len(),
    {
        let ending = Ending::Task(task_id.to_owned());
        proof {
            lemma_map_of(self.entries@);
        }
        let removed = self.end(&ending);
        proof {
            lemma_map_of(self.entries@);
            assert(self@ =~= not_held_by(old(self)@, task_id@));
            lemma_split(old(self)@.dom(), self@.dom(), held_by(old(self)@, task_id@));
        }
        removed
    }

    /// Ends every lease that has lapsed by `now` and returns how many there were,
    /// so that a task that never releases its devices does not hold them forever.
    pub fn sweep(&mut self, now: u64) -> (r: usize)
        requires
            old(self).well_formed(),
        ensures
            final(self).well_formed(),
            final(self)@ == in_force(old(self)@, now),
            r == lapsed(old(self)@, now).len(),
    {
        let ending = Ending::Lapsed(now);
        proof {
            lemma_map_of(self.entries@);
        }
        let removed = self.end(&ending);
        proof {
            lemma_map_of(self.entries@);
            assert(self@ =~= in_force(old(self)@, now));
            lemma_split(old(self)@.dom(), self@.dom(), lapsed(old(self)@, now));
        }
        removed
    }

    /// The devices leased to `task_id`, each once, in no particular order.
    pub fn devices_of(&self, task_id: &str) -> (r: Vec<DeviceRef>)
        requires
            self.well_formed(),
        ensures
            is_listing(self@, task_id@, r.deep_view()),
    {
        let mut out: Vec<DeviceRef> = Vec::new();
        let ghost mut from: Seq<int> = Seq::empty();
        let mut i: usize = 0;
        let ghost all = self.entries@;
        while i < self.entries.len()
            invariant
                i <= all.len(),
                all == self.entries@,
                from.len() == out@.len(),
                forall|k: int|
                    0 <= k < from.len() ==> 0 <= #[trigger] from[k] < i && all[from[k]].task_id@
                        == task_id@ && out@[k].deep_view() == device_on(all[from[k]]),
                forall|k: int, m: int| 0 <= k < m < from.len() ==> from[k] < from[m],
                forall|j: int|
                    0 <= j < i && (#[trigger] all[j]).task_id@ == task_id@ ==> from.contains(j),
            decreases all.len() - i,
        {
            let e = &self.entries[i];
            if same_text(e.task_id.as_str(), task_id) {
                let ghost before = from;
                out.push(
                    DeviceRef {
                        serial: e.serial.clone(),
                        server_host: e.server_host.clone(),
                        server_port: e.server_port,
                    },
                );
                proof {
                    from = from.push(i as int);
                    assert forall|j: int|
                        0 <= j < i + 1 && (#[trigger] all[j]).task_id@
                            == task_id@ implies from.contains(j) by {
                        if j == i {
                            assert(from[from.len() - 1] == j);
                        } else {
                            assert(before.contains(j));
                            let k = choose|k: int| 0 <= k < before.len() && before[k] == j;
                            assert(from[k] == j);
                        }
                    }
                }
            }
            i += 1;
        }
        proof {
            lemma_map_of(all);
            let r = out.deep_view();
            assert forall|k: int, m: int| 0 <= k < m < r.len() implies (#[trigger] r[k]).serial != (
            #[trigger] r[m]).serial by {
                assert(out@[k].deep_view() == device_on(all[from[k]]));
                assert(out@[m].deep_view() == device_on(all[from[m]]));
                assert(all[from[k]].serial@ != all[from[m]].serial@);
            }
            assert forall|k: int| 0 <= k < r.len() implies leased_device(
                self@,
                task_id@,
                #[trigger] r[k],
            ) by {
                assert(out@[k].deep_view() == device_on(all[from[k]]));
                assert(self@.dom().contains(all[from[k]].serial@));
            }
            assert forall|d: Device| #[trigger]
                leased_device(self@, task_id@, d) implies r.contains(d) by {
                let j = choose|j: int| 0 <= j < all.len() && (#[trigger] all[j]).serial@ == d.serial;
                assert(from.contains(j));
                let k = choose|k: int| 0 <= k < from.len() && from[k] == j;
                assert(out@[k].deep_view() == device_on(all[from[k]]));
                assert(r[k] == d);
            }
        }
        out
    }
}

spec fn device_on(lease: Lease) -> Device {
    Device { serial: lease.serial@, host: lease.server_host@, port: lease.server_port }
}

/// Whether `d`, on its server, is leased to `task`.
pub open spec fn leased_device(leases: Map<Seq<char>, Terms>, task: Seq<char>, d: Device) -> bool {
    &&& leases.dom().contains(d.serial)
    &&& leases[d.serial].task == task
    &&& leases[d.serial].host == d.host
    &&& leases[d.serial].port == d.port
}

/// Whether `list` holds exactly the devices leased to `task`, each once.
pub open spec fn is_listing(
    leases: Map<Seq<char>, Terms>,
    task: Seq<char>,
    list: Seq<Device>,
) -> bool {
    &&& forall|k: int, m: int|
        0 <= k < m < list.len() ==> (#[trigger] list[k]).serial != (#[trigger] list[m]).serial
    &&& forall|k: int| 0 <= k < list.len() ==> leased_device(leases, task, #[trigger] list[k])
    &&& forall|d: Device| #[trigger] leased_device(leases, task, d) ==> list.contains(d)
}

proof fn lemma_split(whole: Set<Seq<char>>, kept: Set<Seq<char>>, gone: Set<Seq<char>>)
    requires
        whole.finite(),
        forall|s: Seq<char>| #[trigger]
            whole.contains(s) <==> kept.contains(s) || gone.contains(s),
        forall|s: Seq<char>| !(#[trigger] kept.contains(s) && gone.contains(s)),
    ensures
        whole.len() == kept.len() + gone.len(),
{
    assert(kept.subset_of(whole));
    assert(gone.subset_of(whole));
    vstd::set_lib::lemma_len_subset(kept, whole);
    vstd::set_lib::lemma_len_subset(gone, whole);
    assert(kept.disjoint(gone));
    vstd::set_lib::lemma_set_disjoint_lens(kept, gone);
    assert(kept + gone =~= whole);
}

// ---------------------------------------------------------------------------
// Laws
// ---------------------------------------------------------------------------

/// Whether some one of `devices` has this serial.
pub open spec fn has_serial(devices: Seq<Device>, serial: Seq<char>) -> bool {
    exists|i: int| 0 <= i < devices.len() && (#[trigger] devices[i]).serial == serial
}

/// A grant leases exactly the devices it names: each of their serials is then
/// held by the task until the given time, and every other serial is as it was.
pub proof fn law_grant_touches_its_devices_only(
    leases: Map<Seq<char>, Terms>,
    devices: Seq<Device>,
    task: Seq<char>,
    expires_at: u64,
    serial: Seq<char>,
)
    ensures
        ({
            let after = granting(leases, devices, task, expires_at);
            &&& has_serial(devices, serial) ==> after.dom().contains(serial) && after[serial].task
                == task && after[serial].expires_at == expires_at
            &&& !has_serial(devices, serial) ==> (after.dom().contains(serial)
                <==> leases.dom().contains(serial)) && (leases.dom().contains(serial)
                ==> after[serial] == leases[serial])
        }),
    decreases devices.len(),
{
    if devices.len() > 0 {
        let init = devices.drop_last();
        law_grant_touches_its_devices_only(leases, init, task, expires_at, serial);
        assert(forall|i: int| 0 <= i < init.len() ==> #[trigger] init[i] == devices[i]);
        if has_serial(init, serial) {
            let i = choose|i: int| 0 <= i < init.len() && (#[trigger] init[i]).serial == serial;
            assert(devices[i].serial == serial);
        }
        if devices.last().serial == serial {
            assert(devices[devices.len() - 1].serial == serial);
        } else if has_serial(devices, serial) {
            let i = choose|i: int|
                0 <= i < devices.len() && (#[trigger] devices[i]).serial == serial;
            assert(init[i].serial == serial);
        }
    }
}

/// Releasing undoes a grant: a task that held nothing and was granted idle
/// devices leaves the table as it was when it releases.
pub proof fn law_release_undoes_grant(
    leases: Map<Seq<char>, Terms>,
    devices: Seq<Device>,
    task: Seq<char>,
    expires_at: u64,
)
    requires
        forall|s: Seq<char>| #[trigger] leases.dom().contains(s) ==> leases[s].task != task,
        forall|i: int|
            0 <= i < devices.len() ==> !leases.dom().contains((#[trigger] devices[i]).serial),
    ensures
        not_held_by(granting(leases, devices, task, expires_at), task) == leases,
{
    let granted = granting(leases, devices, task, expires_at);
    let after = not_held_by(granted, task);
    assert forall|s: Seq<char>| #[trigger]
        after.dom().contains(s) <==> leases.dom().contains(s) by {
        law_grant_touches_its_devices_only(leases, devices, task, expires_at, s);
    }
    assert forall|s: Seq<char>| after.dom().contains(s) implies #[trigger] after[s]
        == leases[s] by {
        law_grant_touches_its_devices_only(leases, devices, task, expires_at, s);
    }
    assert(after =~= leases);
}

/// Nothing of a task is left after it releases, and releasing again ends nothing
/// more.
pub proof fn law_release_is_complete(leases: Map<Seq<char>, Terms>, task: Seq<char>)
    ensures
        held_by(not_held_by(leases, task), task) == Set::<Seq<char>>::empty(),
        not_held_by(not_held_by(leases, task), task) == not_held_by(leases, task),
{
    assert(held_by(not_held_by(leases, task), task) =~= Set::<Seq<char>>::empty());
    assert(not_held_by(not_held_by(leases, task), task) =~= not_held_by(leases, task));
}

/// A lease survives every sweep before it lapses and none after, and sweeping
/// touches nothing else.
pub proof fn law_sweep_ends_lapsed_leases_only(
    leases: Map<Seq<char>, Terms>,
    now: u64,
    serial: Seq<char>,
)
    requires
        leases.dom().contains(serial),
    ensures
        in_force(leases, now).dom().contains(serial) <==> now < leases[serial].expires_at,
        now < leases[serial].expires_at ==> in_force(leases, now)[serial] == leases[serial],
{
}

/// Whether `d` is the last one of `devices` with its serial.
pub open spec fn is_last_of_its_serial(devices: Seq<Device>, i: int) -> bool {
    &&& 0 <= i < devices.len()
    &&& forall|j: int| i < j < devices.len() ==> (#[trigger] devices[j]).serial != devices[i].serial
}

/// A granted device is leased on its own server, to the task, until the given time.
/// Where one serial comes twice, the later device counts.
pub proof fn law_grant_keeps_the_server(
    leases: Map<Seq<char>, Terms>,
    devices: Seq<Device>,
    task: Seq<char>,
    expires_at: u64,
    i: int,
)
    requires
        is_last_of_its_serial(devices, i),
    ensures
        ({
            let after = granting(leases, devices, task, expires_at);
            let d = devices[i];
            &&& after.dom().contains(d.serial)
            &&& after[d.serial].host == d.host
            &&& after[d.serial].port == d.port
            &&& after[d.serial].task == task
            &&& after[d.serial].expires_at == expires_at
        }),
    decreases devices.len(),
{
    let init = devices.drop_last();
    if i < init.len() {
        assert(devices[devices.len() - 1].serial != devices[i].serial);
        assert(init[i] == devices[i]);
        assert forall|j: int| i < j < init.len() implies (#[trigger] init[j]).serial
            != init[i].serial by {
            assert(devices[j].serial != devices[i].serial);
        }
        law_grant_keeps_the_server(leases, init, task, expires_at, i);
    }
}

/// What a task holds are exactly the leased serials whose lease is its own, and what is
/// left without it are exactly the others, on the terms they had.
pub proof fn law_holdings(leases: Map<Seq<char>, Terms>, task: Seq<char>, serial: Seq<char>)
    ensures
        held_by(leases, task).contains(serial) <==> leases.dom().contains(serial)
            && leases[serial].task == task,
        not_held_by(leases, task).dom().contains(serial) <==> leases.dom().contains(serial)
            && leases[serial].task != task,
        not_held_by(leases, task).dom().contains(serial) ==> not_held_by(leases, task)[serial]
            == leases[serial],
{
}

/// Releasing for one task leaves the leases of every other as they were.
pub proof fn law_release_spares_other_tasks(
    leases: Map<Seq<char>, Terms>,
    task: Seq<char>,
    other: Seq<char>,
)
    requires
        task != other,
    ensures
        held_by(not_held_by(leases, task), other) == held_by(leases, other),
{
    assert(held_by(not_held_by(leases, task), other) =~= held_by(leases, other));
}

/// What has lapsed are exactly the leases whose time has come, and what is in force
/// are exactly the others, on the terms they had.
pub proof fn law_lapsing(leases: Map<Seq<char>, Terms>, now: u64, serial: Seq<char>)
    ensures
        lapsed(leases, now).contains(serial) <==> leases.dom().contains(serial)
            && leases[serial].expires_at <= now,
        in_force(leases, now).dom().contains(serial) <==> leases.dom().contains(serial) && now
            < leases[serial].expires_at,
        in_force(leases, now).dom().contains(serial) ==> in_force(leases, now)[serial]
            == leases[serial],
{
}

/// A listing of a task's devices holds exactly those whose lease is the task's, with
/// the server of the lease, and none of them twice.
pub proof fn law_listing_is_exact(
    leases: Map<Seq<char>, Terms>,
    task: Seq<char>,
    list: Seq<Device>,
    d: Device,
)
    requires
        is_listing(leases, task, list),
    ensures
        list.contains(d) <==> leases.dom().contains(d.serial) && leases[d.serial].task == task
            && leases[d.serial].host == d.host && leases[d.serial].port == d.port,
        forall|i: int, j: int|
            0 <= i < j < list.len() ==> (#[trigger] list[i]).serial != (#[trigger] list[j]).serial,
{
    if list.contains(d) {
        let k = choose|k: int| 0 <= k < list.len() && list[k] == d;
        assert(leased_device(leases, task, list[k]));
    }
    if leases.dom().contains(d.serial) && leases[d.serial].task == task && leases[d.serial].host
        == d.host && leases[d.serial].port == d.port {
        assert(leased_device(leases, task, d));
    }
}

/// What the table answers: a serial is leased exactly where it has a holder, the
/// holder is the task of its lease, and the devices of a task are those of its leases.
pub proof fn law_table_answers(
    table: &LeaseTable,
    serial: &str,
    leased: bool,
    holder: Option<String>,
    n: usize,
    task_id: &str,
    devices: Vec<DeviceRef>,
    d: Device,
)
    requires
        call_ensures(LeaseTable::is_leased, (table, serial), leased),
        call_ensures(LeaseTable::holder, (table, serial), holder),
        call_ensures(LeaseTable::len, (table,), n),
        call_ensures(LeaseTable::devices_of, (table, task_id), devices),
    ensures
        leased <==> table@.dom().contains(serial@),
        holder is Some <==> table@.dom().contains(serial@),
        holder is Some ==> holder->0@ == table@[serial@].task,
        n == table@.dom().len(),
        devices.deep_view().contains(d) <==> table@.dom().contains(d.serial)
            && table@[d.serial].task == task_id@ && table@[d.serial].host == d.host
            && table@[d.serial].port == d.port,
{
    law_listing_is_exact(table@, task_id@, devices.deep_view(), d);
}

/// A new table holds no lease.
pub proof fn law_new_tables_are_empty(table: LeaseTable, serial: Seq<char>)
    requires
        call_ensures(LeaseTable::new, (), table),
    ensures
        table.well_formed(),
        !table@.dom().contains(serial),
{
}

/// What changes the table changes it as the laws on leases have it, and tells what it did.
pub proof fn law_table_changes(
    inserting: &mut LeaseTable,
    d: &DeviceRef,
    task_id: &str,
    expires_at: u64,
    lease: Lease,
    granting_to: &mut LeaseTable,
    devices: &Vec<DeviceRef>,
    leases: Vec<Lease>,
    releasing: &mut LeaseTable,
    released: usize,
    sweeping: &mut LeaseTable,
    now: u64,
    swept: usize,
    k: int,
)
    requires
        call_ensures(LeaseTable::insert, (inserting, d, task_id, expires_at), lease),
        call_ensures(LeaseTable::grant, (granting_to, devices, task_id, expires_at), leases),
        call_ensures(LeaseTable::release, (releasing, task_id), released),
        call_ensures(LeaseTable::sweep, (sweeping, now), swept),
    ensures
        final(inserting)@ == old(inserting)@.insert(
            d.serial@,
            (Terms { host: d.server_host@, port: d.server_port, task: task_id@, expires_at }),
        ),
        lease.serial@ == d.serial@ && lease.server_host@ == d.server_host@ && lease.server_port
            == d.server_port && lease.task_id@ == task_id@ && lease.expires_at == expires_at,
        final(granting_to)@ == granting(
            old(granting_to)@,
            devices.deep_view(),
            task_id@,
            expires_at,
        ),
        leases@.len() == devices@.len(),
        0 <= k < leases@.len() ==> leases@[k].serial@ == devices@[k].serial@
            && leases@[k].server_host@ == devices@[k].server_host@ && leases@[k].server_port
            == devices@[k].server_port && leases@[k].task_id@ == task_id@ && leases@[k].expires_at
            == expires_at,
        final(releasing)@ == not_held_by(old(releasing)@, task_id@),
        released == held_by(old(releasing)@, task_id@).len(),
        final(sweeping)@ == in_force(old(sweeping)@, now),
        swept == lapsed(old(sweeping)@, now).len(),
{
    assert(lease.deep_view().0 == lease.serial@);
    assert(leases.deep_view().len() == leases@.len());
    assert(devices.deep_view().len() == devices@.len());
    if 0 <= k < leases@.len() {
        assert(leases.deep_view()[k] == leases@[k].deep_view());
        assert(devices.deep_view()[k] == devices@[k].deep_view());
    }
}

} // verus!
