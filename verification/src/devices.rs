use vstd::prelude::*;
use crate::strutil::string_push_char;

verus! {

broadcast use vstd::seq_lib::group_seq_properties;

/// Identity of one attached USB device: enough to tell devices apart across
/// polls, and stable for an unchanged physical device.
#[derive(PartialEq, Eq, Structural, Clone, Copy, Debug)]
pub struct DeviceId {
    pub bus: u8,
    pub address: u8,
    pub vendor_id: u16,
    pub product_id: u16,
}

/// The character standing for one digit value below 16, lowercase past 9.
pub open spec fn digit_char(d: int) -> char {
    if d < 10 {
        ((48 + d) as u8) as char
    } else {
        ((87 + d) as u8) as char
    }
}

/// Three decimal digits, zero-padded, of a value below 1000.
pub open spec fn dec3(n: int) -> Seq<char> {
    seq![digit_char(n / 100), digit_char((n / 10) % 10), digit_char(n % 10)]
}

/// Four lowercase hexadecimal digits, zero-padded, of a value below 65536.
pub open spec fn hex4(n: int) -> Seq<char> {
    seq![
        digit_char(n / 4096),
        digit_char((n / 256) % 16),
        digit_char((n / 16) % 16),
        digit_char(n % 16),
    ]
}

/// The identity token of a device: bus and address as three decimal digits
/// each, vendor and product id as four hexadecimal digits each, all
/// zero-padded and joined by underscores.
pub open spec fn token_chars(d: DeviceId) -> Seq<char> {
    dec3(d.bus as int) + seq!['_'] + dec3(d.address as int) + seq!['_'] + hex4(d.vendor_id as int)
        + seq!['_'] + hex4(d.product_id as int)
}

fn digit_to_char(d: u8) -> (r: char)
    requires
        d < 16,
    ensures
        r == digit_char(d as int),
{
    if d < 10 {
        (48 + d) as char
    } else {
        (87 + d) as char
    }
}

impl DeviceId {
    /// Render the identity token, `BBB_AAA_VVVV_PPPP`.
    pub fn token(&self) -> (r: String)
        ensures
            r@ == token_chars(*self),
    {
        let mut s = String::new();
        string_push_char(&mut s, digit_to_char(self.bus / 100));
        string_push_char(&mut s, digit_to_char((self.bus / 10) % 10));
        string_push_char(&mut s, digit_to_char(self.bus % 10));
        string_push_char(&mut s, '_');
        string_push_char(&mut s, digit_to_char(self.address / 100));
        string_push_char(&mut s, digit_to_char((self.address / 10) % 10));
        string_push_char(&mut s, digit_to_char(self.address % 10));
        string_push_char(&mut s, '_');
        string_push_char(&mut s, digit_to_char((self.vendor_id / 4096) as u8));
        string_push_char(&mut s, digit_to_char(((self.vendor_id / 256) % 16) as u8));
        string_push_char(&mut s, digit_to_char(((self.vendor_id / 16) % 16) as u8));
        string_push_char(&mut s, digit_to_char((self.vendor_id % 16) as u8));
        string_push_char(&mut s, '_');
        string_push_char(&mut s, digit_to_char((self.product_id / 4096) as u8));
        string_push_char(&mut s, digit_to_char(((self.product_id / 256) % 16) as u8));
        string_push_char(&mut s, digit_to_char(((self.product_id / 16) % 16) as u8));
        string_push_char(&mut s, digit_to_char((self.product_id % 16) as u8));
        proof {
            assert(s@ =~= token_chars(*self));
        }
        s
    }
}

/// Whether the list already holds this identity.
fn contains_id(v: &Vec<DeviceId>, id: DeviceId) -> (r: bool)
    ensures
        r == v@.contains(id),
{
    let n = v.len();
    let mut i: usize = 0;
    while i < n
        invariant
            n == v@.len(),
            0 <= i <= n,
            forall|j: int| 0 <= j < i ==> v@[j] != id,
        decreases n - i,
    {
        if v[i] == id {
            return true;
        }
        i += 1;
    }
    false
}

/// The set of devices attached at one instant, each identity held once.
pub struct DeviceSnapshot {
    ids: Vec<DeviceId>,
}

impl View for DeviceSnapshot {
    type V = Set<DeviceId>;

    closed spec fn view(&self) -> Set<DeviceId> {
        self.ids@.to_set()
    }
}

impl DeviceSnapshot {
    /// Well-formed: no device is listed twice.
    pub closed spec fn wf(&self) -> bool {
        self.ids@.no_duplicates()
    }

    /// The empty snapshot: no devices seen yet.
    pub fn new() -> (r: DeviceSnapshot)
        ensures
            r.wf(),
            r@ == Set::<DeviceId>::empty(),
    {
        let r = DeviceSnapshot { ids: Vec::new() };
        proof {
            assert(r@ =~= Set::<DeviceId>::empty());
        }
        r
    }

    /// Collect one enumeration pass into a snapshot, keeping each identity
    /// once however often it was reported.
    pub fn from_ids(ids: &Vec<DeviceId>) -> (r: DeviceSnapshot)
        ensures
            r.wf(),
            r@ == ids@.to_set(),
    {
        let n = ids.len();
        let mut out: Vec<DeviceId> = Vec::new();
        let mut i: usize = 0;
        while i < n
            invariant
                n == ids@.len(),
                0 <= i <= n,
                out@.no_duplicates(),
                out@.to_set() == ids@.take(i as int).to_set(),
            decreases n - i,
        {
            let id = ids[i];
            let seen = contains_id(&out, id);
            proof {
                ids@.lemma_take_succ_push(i as int);
                out@.lemma_push_to_set_commute(id);
                ids@.take(i as int).lemma_push_to_set_commute(id);
                if seen {
                    assert(ids@.take(i as int).to_set().insert(id) =~= ids@.take(
                        i as int,
                    ).to_set());
                }
            }
            if !seen {
                out.push(id);
            }
            i += 1;
        }
        proof {
            assert(ids@.take(n as int) =~= ids@);
        }
        DeviceSnapshot { ids: out }
    }

    /// Whether a device with this identity is in the snapshot.
    pub fn contains(&self, id: DeviceId) -> (r: bool)
        ensures
            r == self@.contains(id),
    {
        contains_id(&self.ids, id)
    }

    /// How many devices the snapshot holds.
    pub fn count(&self) -> (r: usize)
        requires
            self.wf(),
        ensures
            r == self@.len(),
    {
        proof {
            self.ids@.unique_seq_to_set();
        }
        self.ids.len()
    }

    /// The identities, one for each device in the snapshot.
    pub fn id_list(&self) -> (r: &Vec<DeviceId>)
        requires
            self.wf(),
        ensures
            r@.no_duplicates(),
            r@.to_set() == self@,
    {
        &self.ids
    }

    /// The devices of `self` that are not in `other`.
    pub fn difference(&self, other: &DeviceSnapshot) -> (r: DeviceSnapshot)
        requires
            self.wf(),
        ensures
            r.wf(),
            r@ == self@.difference(other@),
    {
        let n = self.ids.len();
        let mut out: Vec<DeviceId> = Vec::new();
        let mut i: usize = 0;
        while i < n
            invariant
                n == self.ids@.len(),
                0 <= i <= n,
                self.wf(),
                out@.no_duplicates(),
                out@.to_set() == self.ids@.take(i as int).to_set().difference(other@),
            decreases n - i,
        {
            let id = self.ids[i];
            let inside = other.contains(id);
            proof {
                self.ids@.lemma_take_succ_push(i as int);
                self.ids@.take(i as int).lemma_push_to_set_commute(id);
                if !inside {
                    out@.lemma_push_to_set_commute(id);
                    assert(!self.ids@.take(i as int).contains(id));
                    assert(!out@.to_set().contains(id));
                    assert(out@.push(id).to_set() =~= self.ids@.take(
                        i + 1,
                    ).to_set().difference(other@));
                } else {
                    assert(out@.to_set() =~= self.ids@.take(i + 1).to_set().difference(other@));
                }
            }
            if !inside {
                out.push(id);
            }
            i += 1;
        }
        proof {
            assert(self.ids@.take(n as int) =~= self.ids@);
        }
        DeviceSnapshot { ids: out }
    }

    /// Whether the two snapshots hold exactly the same devices.
    pub fn same_devices(&self, other: &DeviceSnapshot) -> (r: bool)
        requires
            self.wf(),
            other.wf(),
        ensures
            r == (self@ == other@),
    {
        let a_not_b = self.difference(other);
        let b_not_a = other.difference(self);
        let r = a_not_b.ids.len() == 0 && b_not_a.ids.len() == 0;
        proof {
            a_not_b.ids@.unique_seq_to_set();
            b_not_a.ids@.unique_seq_to_set();
            if a_not_b.ids@.len() == 0 && b_not_a.ids@.len() == 0 {
                assert(self@.difference(other@).len() == 0);
                assert(other@.difference(self@).len() == 0);
                assert(self@ =~= other@) by {
                    assert forall|x: DeviceId| self@.contains(x) implies other@.contains(x) by {
                        if !other@.contains(x) {
                            assert(self@.difference(other@).contains(x));
                            vstd::set_lib::lemma_set_empty_equivalency_len(
                                self@.difference(other@),
                            );
                        }
                    }
                    assert forall|x: DeviceId| other@.contains(x) implies self@.contains(x) by {
                        if !self@.contains(x) {
                            assert(other@.difference(self@).contains(x));
                            vstd::set_lib::lemma_set_empty_equivalency_len(
                                other@.difference(self@),
                            );
                        }
                    }
                }
            } else {
                if a_not_b.ids@.len() != 0 {
                    assert(a_not_b.ids@.contains(a_not_b.ids@[0]));
                    assert(self@.difference(other@).contains(a_not_b.ids@[0]));
                } else {
                    assert(b_not_a.ids@.contains(b_not_a.ids@[0]));
                    assert(other@.difference(self@).contains(b_not_a.ids@[0]));
                }
            }
        }
        r
    }
}

/// One polling comparison: the devices added since the previous snapshot and
/// the devices removed, as set differences in each direction.
pub fn snapshot_diff(prev: &DeviceSnapshot, current: &DeviceSnapshot) -> (r: (
    DeviceSnapshot,
    DeviceSnapshot,
))
    requires
        prev.wf(),
        current.wf(),
    ensures
        r.0.wf(),
        r.1.wf(),
        r.0@ == current@.difference(prev@),
        r.1@ == prev@.difference(current@),
{
    let added = current.difference(prev);
    let removed = prev.difference(current);
    (added, removed)
}

/// Whether a topology change has to be reported: exactly when something was
/// added or removed, that is, when the two snapshots differ as sets.
pub open spec fn poll_changed(prev: Set<DeviceId>, current: Set<DeviceId>) -> bool {
    prev != current
}

/// Identical consecutive snapshots never fire a notification.
pub proof fn lemma_no_change_no_notification(s: Set<DeviceId>)
    ensures
        !poll_changed(s, s),
{
}

/// The running state of the polling device-presence monitor: the snapshot it
/// holds from the previous cycle.
pub struct PresenceMonitor {
    running: DeviceSnapshot,
}

impl View for PresenceMonitor {
    type V = Set<DeviceId>;

    closed spec fn view(&self) -> Set<DeviceId> {
        self.running@
    }
}

impl PresenceMonitor {
    /// Well-formed: the running snapshot is.
    pub closed spec fn wf(&self) -> bool {
        self.running.wf()
    }

    /// A monitor that has not seen any devices yet.
    pub fn new() -> (r: PresenceMonitor)
        ensures
            r.wf(),
            r@ == Set::<DeviceId>::empty(),
    {
        PresenceMonitor { running: DeviceSnapshot::new() }
    }

    /// One polling cycle. With no observation (the pause flag was set, so
    /// enumeration was skipped) nothing changes and nothing is reported.
    /// With an observation the running snapshot becomes it, and exactly one
    /// notification is owed when the topology changed, none otherwise.
    pub fn cycle(&mut self, observation: Option<DeviceSnapshot>) -> (notify: bool)
        requires
            old(self).wf(),
            (observation matches Some(s) ==> s.wf()),
        ensures
            final(self).wf(),
            (match observation {
                None => final(self)@ == old(self)@ && !notify,
                Some(s) => final(self)@ == s@ && notify == poll_changed(old(self)@, s@),
            }),
    {
        match observation {
            None => false,
            Some(current) => {
                let changed = !self.running.same_devices(&current);
                self.running = current;
                changed
            },
        }
    }
}

} // verus!
