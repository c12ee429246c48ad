//! The discovery registry: the peers currently known, keyed by device id,
//! and the add/remove events a sighting produces.

use vstd::prelude::*;
use crate::device::{
    Device, DeviceView, DeviceConnectionInfo, DeviceConnectionInfoView, DeviceDiscoveryMessage,
    DeviceDiscoveryMessageView, DiscoveryContent, DiscoveryContentView, same_connection_info,
};
use crate::wire::{decode_discovery_record, dec_discovery_record};

verus! {

/// Implemented by the application to hear about peers coming and
/// going.
pub trait DeviceListUpdateDelegate {
    fn device_added(&self, value: Device);

    fn device_removed(&self, device_id: String);
}

/// What a processed sighting tells the user interface.
pub enum DiscoveryEvent {
    DeviceAdded(Device),
    DeviceRemoved(String),
}

pub enum DiscoveryEventView {
    DeviceAdded(DeviceView),
    DeviceRemoved(Seq<char>),
}

impl View for DiscoveryEvent {
    type V = DiscoveryEventView;

    open spec fn view(&self) -> DiscoveryEventView {
        match self {
            DiscoveryEvent::DeviceAdded(d) => DiscoveryEventView::DeviceAdded(d@),
            DiscoveryEvent::DeviceRemoved(id) => DiscoveryEventView::DeviceRemoved(id@),
        }
    }
}

/// One stored peer: its id and the descriptor most recently seen for it.
pub struct RegistryEntry {
    pub id: String,
    pub info: DeviceConnectionInfo,
}

/// The in-memory map from device id to connection descriptor.
pub struct DiscoveryRegistry {
    pub entries: Vec<RegistryEntry>,
}

pub open spec fn entry_views(s: Seq<RegistryEntry>) -> Seq<(Seq<char>, DeviceConnectionInfoView)> {
    s.map_values(|e: RegistryEntry| (e.id@, e.info@))
}

/// The map a sequence of entries denotes; later entries would win, and
/// the registry keeps ids distinct so order never matters.
pub open spec fn seq_to_map(s: Seq<(Seq<char>, DeviceConnectionInfoView)>) -> Map<
    Seq<char>,
    DeviceConnectionInfoView,
>
    decreases s.len(),
{
    if s.len() == 0 {
        Map::empty()
    } else {
        seq_to_map(s.drop_last()).insert(s.last().0, s.last().1)
    }
}

pub open spec fn distinct_keys(s: Seq<(Seq<char>, DeviceConnectionInfoView)>) -> bool {
    forall|i: int, j: int| 0 <= i < j < s.len() ==> s[i].0 != s[j].0
}

pub proof fn lemma_map_domain(s: Seq<(Seq<char>, DeviceConnectionInfoView)>, id: Seq<char>)
    ensures
        seq_to_map(s).contains_key(id) <==> exists|i: int| 0 <= i < s.len() && s[i].0 == id,
    decreases s.len(),
{
    if s.len() > 0 {
        lemma_map_domain(s.drop_last(), id);
        if seq_to_map(s).contains_key(id) {
            if s.last().0 != id {
                let i = choose|i: int| 0 <= i < s.drop_last().len() && s.drop_last()[i].0 == id;
                assert(s[i].0 == id);
            }
        }
        if exists|i: int| 0 <= i < s.len() && s[i].0 == id {
            let i = choose|i: int| 0 <= i < s.len() && s[i].0 == id;
            if i < s.len() - 1 {
                assert(s.drop_last()[i].0 == id);
            }
        }
    }
}

pub proof fn lemma_map_value(s: Seq<(Seq<char>, DeviceConnectionInfoView)>, i: int)
    requires
        distinct_keys(s),
        0 <= i < s.len(),
    ensures
        seq_to_map(s).contains_key(s[i].0),
        seq_to_map(s)[s[i].0] == s[i].1,
    decreases s.len(),
{
    if i == s.len() - 1 {
        lemma_map_domain(s, s[i].0);
    } else {
        lemma_map_value(s.drop_last(), i);
        assert(s.drop_last()[i] == s[i]);
        assert(s.last().0 != s[i].0);
    }
}

pub proof fn lemma_map_update(s: Seq<(Seq<char>, DeviceConnectionInfoView)>, i: int, v: DeviceConnectionInfoView)
    requires
        distinct_keys(s),
        0 <= i < s.len(),
    ensures
        seq_to_map(s.update(i, (s[i].0, v))) == seq_to_map(s).insert(s[i].0, v),
    decreases s.len(),
{
    let t = s.update(i, (s[i].0, v));
    if i == s.len() - 1 {
        assert(t.drop_last() =~= s.drop_last());
        assert(seq_to_map(t) =~= seq_to_map(s).insert(s[i].0, v));
    } else {
        assert(t.drop_last() =~= s.drop_last().update(i, (s[i].0, v)));
        assert(s.drop_last()[i] == s[i]);
        lemma_map_update(s.drop_last(), i, v);
        assert(t.last() == s.last());
        assert(s.last().0 != s[i].0);
        assert(seq_to_map(t) =~= seq_to_map(s).insert(s[i].0, v));
    }
}

pub proof fn lemma_map_remove(s: Seq<(Seq<char>, DeviceConnectionInfoView)>, i: int)
    requires
        distinct_keys(s),
        0 <= i < s.len(),
    ensures
        seq_to_map(s.remove(i)) == seq_to_map(s).remove(s[i].0),
    decreases s.len(),
{
    let t = s.remove(i);
    if i == s.len() - 1 {
        assert(t =~= s.drop_last());
        lemma_map_domain(s.drop_last(), s[i].0);
        assert(forall|j: int|
            0 <= j < s.drop_last().len() ==> s.drop_last()[j].0 != s[i].0);
        lemma_map_not_contains(s.drop_last(), s[i].0);
        assert(seq_to_map(t) =~= seq_to_map(s).remove(s[i].0));
    } else {
        assert(t.drop_last() =~= s.drop_last().remove(i));
        assert(s.drop_last()[i] == s[i]);
        lemma_map_remove(s.drop_last(), i);
        assert(t.last() == s.last());
        assert(s.last().0 != s[i].0);
        assert(seq_to_map(t) =~= seq_to_map(s).remove(s[i].0));
    }
}

pub proof fn lemma_map_not_contains(s: Seq<(Seq<char>, DeviceConnectionInfoView)>, id: Seq<char>)
    requires
        forall|i: int| 0 <= i < s.len() ==> s[i].0 != id,
    ensures
        !seq_to_map(s).contains_key(id),
{
    lemma_map_domain(s, id);
}

impl DiscoveryRegistry {
    /// The map this registry holds.
    pub open spec fn view_map(&self) -> Map<Seq<char>, DeviceConnectionInfoView> {
        seq_to_map(entry_views(self.entries@))
    }

    /// Ids are distinct, and every stored descriptor carries the device
    /// whose id it is stored under.
    pub open spec fn inv(&self) -> bool {
        &&& distinct_keys(entry_views(self.entries@))
        &&& forall|i: int|
            0 <= i < self.entries@.len() ==> ((#[trigger] self.entries@[i].info)@.device matches Some(
                d,
            ) && d.id == self.entries@[i].id@)
    }

    pub fn new() -> (r: Self)
        ensures
            r.inv(),
            r.view_map() == Map::<Seq<char>, DeviceConnectionInfoView>::empty(),
            r.entries@.len() == 0,
    {
        let r = DiscoveryRegistry { entries: Vec::new() };
        proof {
            assert(entry_views(r.entries@) =~= Seq::empty());
        }
        r
    }

    /// Forget every known peer, as a scan start does.
    pub fn clear(&mut self)
        ensures
            final(self).inv(),
            final(self).view_map() == Map::<Seq<char>, DeviceConnectionInfoView>::empty(),
            final(self).entries@.len() == 0,
    {
        self.entries.clear();
        proof {
            assert(entry_views(self.entries@) =~= Seq::empty());
        }
    }

    fn find_index(&self, id: &String) -> (r: Option<usize>)
        ensures
            match r {
                Some(i) => i < self.entries@.len() && self.entries@[i as int].id@ == id@,
                None => forall|i: int|
                    0 <= i < self.entries@.len() ==> (#[trigger] self.entries@[i]).id@ != id@,
            },
    {
        let mut i: usize = 0;
        while i < self.entries.len()
            invariant
                i <= self.entries@.len(),
                forall|j: int| 0 <= j < i ==> (#[trigger] self.entries@[j]).id@ != id@,
            decreases self.entries@.len() - i,
        {
            if self.entries[i].id == *id {
                return Some(i);
            }
            i = i + 1;
        }
        None
    }

    /// The descriptor most recently stored for this device, if any.
    pub fn get_connection_details(&self, device: &Device) -> (r: Option<DeviceConnectionInfo>)
        requires
            self.inv(),
        ensures
            match r {
                Some(info) => self.view_map().contains_key(device.id@) && info@
                    == self.view_map()[device.id@],
                None => !self.view_map().contains_key(device.id@),
            },
    {
        match self.find_index(&device.id) {
            Some(i) => {
                proof {
                    lemma_map_value(entry_views(self.entries@), i as int);
                    assert(entry_views(self.entries@)[i as int] == (
                        self.entries@[i as int].id@,
                        self.entries@[i as int].info@,
                    ));
                }
                Some(self.entries[i].info.clone())
            },
            None => {
                proof {
                    assert(forall|j: int|
                        0 <= j < entry_views(self.entries@).len()
                            ==> entry_views(self.entries@)[j].0 != device.id@);
                    lemma_map_not_contains(entry_views(self.entries@), device.id@);
                }
                None
            },
        }
    }

    /// Every known device, in storage order.
    pub fn get_devices(&self) -> (r: Vec<Device>)
        requires
            self.inv(),
        ensures
            r@.len() == self.entries@.len(),
            forall|i: int|
                0 <= i < r@.len() ==> Some((#[trigger] r@[i])@) == self.entries@[i].info@.device,
    {
        let mut out: Vec<Device> = Vec::new();
        let mut i: usize = 0;
        while i < self.entries.len()
            invariant
                self.inv(),
                i <= self.entries@.len(),
                out@.len() == i,
                forall|j: int|
                    0 <= j < i ==> Some((#[trigger] out@[j])@) == self.entries@[j].info@.device,
            decreases self.entries@.len() - i,
        {
            match &self.entries[i].info.device {
                Some(d) => {
                    out.push(d.clone());
                },
                None => {
                    proof {
                        assert(self.entries@[i as int].info@.device is Some);
                        assert(false);
                    }
                },
            }
            i = i + 1;
        }
        out
    }
}

pub open spec fn event_views(s: Seq<DiscoveryEvent>) -> Seq<DiscoveryEventView> {
    s.map_values(|e: DiscoveryEvent| e@)
}

/// The descriptor as stored: the transport's out-of-band BLE id, when
/// it supplies one, replaces the advertised one.
pub open spec fn spec_stamp(info: DeviceConnectionInfoView, uuid: Option<Seq<char>>) -> DeviceConnectionInfoView {
    match (uuid, info.ble) {
        (Some(u), Some(b)) => DeviceConnectionInfoView {
            device: info.device,
            ble: Some(crate::device::BluetoothLeConnectionInfoView { uuid: u, psm: b.psm }),
            tcp: info.tcp,
        },
        _ => info,
    }
}

/// What one discovery message does to the registry map: a descriptor
/// carrying a device is stored under its id, an offline notice removes
/// its id, anything else changes nothing.
pub open spec fn spec_apply(
    m: Map<Seq<char>, DeviceConnectionInfoView>,
    msg: DeviceDiscoveryMessageView,
    uuid: Option<Seq<char>>,
) -> Map<Seq<char>, DeviceConnectionInfoView> {
    match msg.content {
        Some(DiscoveryContentView::ConnectionInfo(info)) => match info.device {
            Some(d) => m.insert(d.id, spec_stamp(info, uuid)),
            None => m,
        },
        Some(DiscoveryContentView::OfflineDeviceId(id)) => m.remove(id),
        None => m,
    }
}

/// The events one message fires: `DeviceAdded` for a new id or one whose
/// stored descriptor differs from the incoming one, `DeviceRemoved` for
/// every offline notice, nothing otherwise.
pub open spec fn spec_events(
    m: Map<Seq<char>, DeviceConnectionInfoView>,
    msg: DeviceDiscoveryMessageView,
    uuid: Option<Seq<char>>,
) -> Seq<DiscoveryEventView> {
    match msg.content {
        Some(DiscoveryContentView::ConnectionInfo(info)) => match info.device {
            Some(d) => if !m.contains_key(d.id) || m[d.id] != spec_stamp(info, uuid) {
                seq![DiscoveryEventView::DeviceAdded(d)]
            } else {
                seq![]
            },
            None => seq![],
        },
        Some(DiscoveryContentView::OfflineDeviceId(id)) => seq![
            DiscoveryEventView::DeviceRemoved(id),
        ],
        None => seq![],
    }
}

impl DiscoveryRegistry {
    /// Fold one sighting into the registry and report the events it
    /// fires, exactly as `spec_apply` and `spec_events` describe.
    pub fn apply_message(&mut self, msg: DeviceDiscoveryMessage, ble_uuid: Option<String>) -> (events: Vec<DiscoveryEvent>)
        requires
            old(self).inv(),
        ensures
            final(self).inv(),
            final(self).view_map() == spec_apply(
                old(self).view_map(),
                msg@,
                crate::wire::opt_str_view(ble_uuid),
            ),
            event_views(events@) == spec_events(
                old(self).view_map(),
                msg@,
                crate::wire::opt_str_view(ble_uuid),
            ),
    {
        let ghost m0 = self.view_map();
        let ghost uuidv = crate::wire::opt_str_view(ble_uuid);
        let ghost msgv = msg@;
        match msg.content {
            None => Vec::new(),
            Some(DiscoveryContent::OfflineDeviceId(id)) => {
                match self.find_index(&id) {
                    Some(i) => {
                        proof {
                            lemma_map_remove(entry_views(self.entries@), i as int);
                            assert(entry_views(self.entries@).remove(i as int) =~= entry_views(
                                self.entries@.remove(i as int),
                            ));
                        }
                        self.entries.remove(i);
                    },
                    None => {
                        proof {
                            lemma_map_not_contains(entry_views(self.entries@), id@);
                            assert(m0.remove(id@) =~= m0);
                        }
                    },
                }
                let mut events: Vec<DiscoveryEvent> = Vec::new();
                events.push(DiscoveryEvent::DeviceRemoved(id));
                proof {
                    assert(event_views(events@) =~= spec_events(m0, msgv, uuidv));
                }
                events
            },
            Some(DiscoveryContent::ConnectionInfo(info)) => {
                let ghost infov = info@;
                let device = match &info.device {
                    Some(d) => d.clone(),
                    None => {
                        return Vec::new();
                    },
                };
                let ghost devv = device@;
                // Stamp the transport's peer id into the BLE coordinates.
                let stamped = match ble_uuid {
                    Some(u) => DeviceConnectionInfo {
                        device: info.device,
                        ble: match info.ble {
                            Some(b) => Some(
                                crate::device::BluetoothLeConnectionInfo { uuid: u, psm: b.psm },
                            ),
                            None => None,
                        },
                        tcp: info.tcp,
                    },
                    None => info,
                };
                let ghost stampedv = stamped@;
                proof {
                    assert(stampedv == spec_stamp(infov, uuidv));
                }
                let mut events: Vec<DiscoveryEvent> = Vec::new();
                match self.find_index(&device.id) {
                    None => {
                        proof {
                            lemma_map_not_contains(entry_views(self.entries@), devv.id);
                        }
                        let entry = RegistryEntry { id: device.id.clone(), info: stamped };
                        self.entries.push(entry);
                        events.push(DiscoveryEvent::DeviceAdded(device));
                        proof {
                            let evs = entry_views(self.entries@);
                            let evs0 = entry_views(old(self).entries@);
                            assert(evs =~= evs0.push((devv.id, stampedv)));
                            assert(evs.drop_last() =~= evs0);
                            assert(seq_to_map(evs) =~= m0.insert(devv.id, stampedv));
                            assert(distinct_keys(evs));
                            assert(event_views(events@) =~= spec_events(m0, msgv, uuidv));
                        }
                    },
                    Some(i) => {
                        proof {
                            lemma_map_value(entry_views(self.entries@), i as int);
                        }
                        if same_connection_info(&self.entries[i].info, &stamped) {
                            proof {
                                assert(m0[devv.id] == stampedv);
                                assert(m0.insert(devv.id, stampedv) =~= m0);
                                assert(event_views(events@) =~= spec_events(m0, msgv, uuidv));
                            }
                        } else {
                            proof {
                                lemma_map_update(entry_views(self.entries@), i as int, stampedv);
                            }
                            let entry = RegistryEntry { id: device.id.clone(), info: stamped };
                            self.entries[i] = entry;
                            events.push(DiscoveryEvent::DeviceAdded(device));
                            proof {
                                let evs = entry_views(self.entries@);
                                let evs0 = entry_views(old(self).entries@);
                                assert(evs =~= evs0.update(i as int, (evs0[i as int].0, stampedv)));
                                assert(seq_to_map(evs) =~= m0.insert(devv.id, stampedv));
                                assert(distinct_keys(evs));
                                assert(event_views(events@) =~= spec_events(m0, msgv, uuidv));
                            }
                        }
                    },
                }
                events
            },
        }
    }

    /// Decode a length-delimited discovery record and fold it into the
    /// registry; bytes that do not decode change nothing.
    pub fn parse_discovery_message(&mut self, data: &Vec<u8>, ble_uuid: Option<String>) -> (events: Vec<DiscoveryEvent>)
        requires
            old(self).inv(),
        ensures
            final(self).inv(),
            match dec_discovery_record(data@) {
                Ok(p) => {
                    &&& final(self).view_map() == spec_apply(
                        old(self).view_map(),
                        p.0,
                        crate::wire::opt_str_view(ble_uuid),
                    )
                    &&& event_views(events@) == spec_events(
                        old(self).view_map(),
                        p.0,
                        crate::wire::opt_str_view(ble_uuid),
                    )
                },
                Err(_) => final(self).view_map() == old(self).view_map() && events@.len() == 0,
            },
    {
        proof {
            assert(data@.skip(0) =~= data@);
        }
        match decode_discovery_record(data, 0) {
            Ok((msg, _end)) => self.apply_message(msg, ble_uuid),
            Err(_) => Vec::new(),
        }
    }
}

/// The event law for one sighting.  At most one event fires.
/// `DeviceAdded(d)` fires exactly when a descriptor carrying `d`
/// arrives and `d.id` is new or its stored descriptor differs from the
/// stamped incoming one.  `DeviceRemoved(id)` fires exactly for an
/// offline notice of `id` — also when `id` was never stored, as the
/// discovery plane directs — and afterwards `id` is not in the
/// registry, so a removal of a stored id fires exactly once.
pub proof fn lemma_discovery_event_law(
    m: Map<Seq<char>, DeviceConnectionInfoView>,
    msg: DeviceDiscoveryMessageView,
    uuid: Option<Seq<char>>,
)
    ensures
        spec_events(m, msg, uuid).len() <= 1,
        forall|d: DeviceView|
            #[trigger] spec_events(m, msg, uuid).contains(DiscoveryEventView::DeviceAdded(d))
                <==> (msg.content matches Some(DiscoveryContentView::ConnectionInfo(info))
                && info.device == Some(d) && (!m.contains_key(d.id) || m[d.id] != spec_stamp(
                info,
                uuid,
            ))),
        forall|id: Seq<char>|
            #[trigger] spec_events(m, msg, uuid).contains(DiscoveryEventView::DeviceRemoved(id))
                <==> msg.content == Some(DiscoveryContentView::OfflineDeviceId(id)),
        msg.content matches Some(DiscoveryContentView::OfflineDeviceId(id)) ==> !spec_apply(
            m,
            msg,
            uuid,
        ).contains_key(id),
{
    let evs = spec_events(m, msg, uuid);
    assert forall|d: DeviceView|
        #[trigger] evs.contains(DiscoveryEventView::DeviceAdded(d)) implies (
    msg.content matches Some(DiscoveryContentView::ConnectionInfo(info)) && info.device == Some(d)
        && (!m.contains_key(d.id) || m[d.id] != spec_stamp(info, uuid))) by {
        let i = choose|i: int| 0 <= i < evs.len() && evs[i] == DiscoveryEventView::DeviceAdded(d);
    }
    assert forall|d: DeviceView|
        (msg.content matches Some(DiscoveryContentView::ConnectionInfo(info)) && info.device
            == Some(d) && (!m.contains_key(d.id) || m[d.id] != spec_stamp(
            info,
            uuid,
        ))) implies #[trigger] evs.contains(DiscoveryEventView::DeviceAdded(d)) by {
        assert(evs[0] == DiscoveryEventView::DeviceAdded(d));
    }
    assert forall|id: Seq<char>|
        #[trigger] evs.contains(DiscoveryEventView::DeviceRemoved(id)) implies msg.content
        == Some(DiscoveryContentView::OfflineDeviceId(id)) by {
        let i = choose|i: int|
            0 <= i < evs.len() && evs[i] == DiscoveryEventView::DeviceRemoved(id);
    }
    assert forall|id: Seq<char>|
        msg.content == Some(DiscoveryContentView::OfflineDeviceId(id)) implies #[trigger] evs
        .contains(DiscoveryEventView::DeviceRemoved(id)) by {
        assert(evs[0] == DiscoveryEventView::DeviceRemoved(id));
    }
}

// ---------------------------------------------------------------------
// The registry tracks the most recent word about every peer.
// ---------------------------------------------------------------------

/// Fold a whole run of sightings, each with the out-of-band BLE id the
/// transport attached to it.
pub open spec fn spec_apply_all(
    m: Map<Seq<char>, DeviceConnectionInfoView>,
    sightings: Seq<(DeviceDiscoveryMessageView, Option<Seq<char>>)>,
) -> Map<Seq<char>, DeviceConnectionInfoView>
    decreases sightings.len(),
{
    if sightings.len() == 0 {
        m
    } else {
        spec_apply(spec_apply_all(m, sightings.drop_last()), sightings.last().0, sightings.last().1)
    }
}

/// The most recent thing a run of sightings said about `id`:
/// `Some(true)` for a connection descriptor, `Some(false)` for an
/// offline notice, `None` when the run never mentions it.
pub open spec fn last_word_for(
    sightings: Seq<(DeviceDiscoveryMessageView, Option<Seq<char>>)>,
    id: Seq<char>,
) -> Option<bool>
    decreases sightings.len(),
{
    if sightings.len() == 0 {
        None
    } else {
        match sightings.last().0.content {
            Some(DiscoveryContentView::ConnectionInfo(info)) => match info.device {
                Some(d) => if d.id == id {
                    Some(true)
                } else {
                    last_word_for(sightings.drop_last(), id)
                },
                None => last_word_for(sightings.drop_last(), id),
            },
            Some(DiscoveryContentView::OfflineDeviceId(oid)) => if oid == id {
                Some(false)
            } else {
                last_word_for(sightings.drop_last(), id)
            },
            None => last_word_for(sightings.drop_last(), id),
        }
    }
}

/// After any run of sightings the registry contains exactly the ids
/// whose most recent message was a connection descriptor: an id is
/// present when its last word was online, absent when it was offline,
/// and untouched when the run never mentioned it.
pub proof fn lemma_registry_tracks_last_word(
    m: Map<Seq<char>, DeviceConnectionInfoView>,
    sightings: Seq<(DeviceDiscoveryMessageView, Option<Seq<char>>)>,
    id: Seq<char>,
)
    ensures
        spec_apply_all(m, sightings).contains_key(id) == match last_word_for(sightings, id) {
            Some(online) => online,
            None => m.contains_key(id),
        },
    decreases sightings.len(),
{
    if sightings.len() > 0 {
        lemma_registry_tracks_last_word(m, sightings.drop_last(), id);
    }
}

} // verus!
