//! The discovery data model: who a peer is and how to dial it.

use vstd::prelude::*;

verus! {

/// Identity of a peer: a stable installation id, a human-readable name,
/// and the protocol version it speaks (absent means older-than-current).
pub struct Device {
    pub id: String,
    pub name: String,
    pub protocol_version: Option<u32>,
}

/// TCP coordinates of a peer.
pub struct TcpConnectionInfo {
    pub hostname: String,
    pub port: u32,
}

/// BLE L2CAP coordinates of a peer.
pub struct BluetoothLeConnectionInfo {
    pub uuid: String,
    pub psm: u32,
}

/// Everything needed to dial a peer: its identity plus optional TCP and
/// BLE coordinates.
pub struct DeviceConnectionInfo {
    pub device: Option<Device>,
    pub ble: Option<BluetoothLeConnectionInfo>,
    pub tcp: Option<TcpConnectionInfo>,
}

/// Payload of a discovery message: either a full connection descriptor
/// (the peer is online) or the id of a peer that has gone away.
pub enum DiscoveryContent {
    ConnectionInfo(DeviceConnectionInfo),
    OfflineDeviceId(String),
}

/// The versioned record exchanged on the discovery plane.
pub struct DeviceDiscoveryMessage {
    pub content: Option<DiscoveryContent>,
}

pub struct DeviceView {
    pub id: Seq<char>,
    pub name: Seq<char>,
    pub protocol_version: Option<u32>,
}

pub struct TcpConnectionInfoView {
    pub hostname: Seq<char>,
    pub port: u32,
}

pub struct BluetoothLeConnectionInfoView {
    pub uuid: Seq<char>,
    pub psm: u32,
}

pub struct DeviceConnectionInfoView {
    pub device: Option<DeviceView>,
    pub ble: Option<BluetoothLeConnectionInfoView>,
    pub tcp: Option<TcpConnectionInfoView>,
}

pub enum DiscoveryContentView {
    ConnectionInfo(DeviceConnectionInfoView),
    OfflineDeviceId(Seq<char>),
}

pub struct DeviceDiscoveryMessageView {
    pub content: Option<DiscoveryContentView>,
}

impl View for Device {
    type V = DeviceView;

    open spec fn view(&self) -> DeviceView {
        DeviceView { id: self.id@, name: self.name@, protocol_version: self.protocol_version }
    }
}

impl View for TcpConnectionInfo {
    type V = TcpConnectionInfoView;

    open spec fn view(&self) -> TcpConnectionInfoView {
        TcpConnectionInfoView { hostname: self.hostname@, port: self.port }
    }
}

impl View for BluetoothLeConnectionInfo {
    type V = BluetoothLeConnectionInfoView;

    open spec fn view(&self) -> BluetoothLeConnectionInfoView {
        BluetoothLeConnectionInfoView { uuid: self.uuid@, psm: self.psm }
    }
}

impl View for DeviceConnectionInfo {
    type V = DeviceConnectionInfoView;

    open spec fn view(&self) -> DeviceConnectionInfoView {
        DeviceConnectionInfoView {
            device: match self.device {
                Some(d) => Some(d@),
                None => None,
            },
            ble: match self.ble {
                Some(b) => Some(b@),
                None => None,
            },
            tcp: match self.tcp {
                Some(t) => Some(t@),
                None => None,
            },
        }
    }
}

impl View for DiscoveryContent {
    type V = DiscoveryContentView;

    open spec fn view(&self) -> DiscoveryContentView {
        match self {
            DiscoveryContent::ConnectionInfo(info) => DiscoveryContentView::ConnectionInfo(info@),
            DiscoveryContent::OfflineDeviceId(id) => DiscoveryContentView::OfflineDeviceId(id@),
        }
    }
}

impl View for DeviceDiscoveryMessage {
    type V = DeviceDiscoveryMessageView;

    open spec fn view(&self) -> DeviceDiscoveryMessageView {
        DeviceDiscoveryMessageView {
            content: match self.content {
                Some(c) => Some(c@),
                None => None,
            },
        }
    }
}

impl Clone for Device {
    fn clone(&self) -> (r: Self)
        ensures
            r@ == self@,
    {
        Device {
            id: self.id.clone(),
            name: self.name.clone(),
            protocol_version: self.protocol_version,
        }
    }
}

impl Clone for TcpConnectionInfo {
    fn clone(&self) -> (r: Self)
        ensures
            r@ == self@,
    {
        TcpConnectionInfo { hostname: self.hostname.clone(), port: self.port }
    }
}

impl Clone for BluetoothLeConnectionInfo {
    fn clone(&self) -> (r: Self)
        ensures
            r@ == self@,
    {
        BluetoothLeConnectionInfo { uuid: self.uuid.clone(), psm: self.psm }
    }
}

impl Clone for DeviceConnectionInfo {
    fn clone(&self) -> (r: Self)
        ensures
            r@ == self@,
    {
        DeviceConnectionInfo {
            device: match &self.device {
                Some(d) => Some(d.clone()),
                None => None,
            },
            ble: match &self.ble {
                Some(b) => Some(b.clone()),
                None => None,
            },
            tcp: match &self.tcp {
                Some(t) => Some(t.clone()),
                None => None,
            },
        }
    }
}

pub fn same_device(a: &Device, b: &Device) -> (r: bool)
    ensures
        r == (a@ == b@),
{
    let versions_match = match (a.protocol_version, b.protocol_version) {
        (None, None) => true,
        (Some(x), Some(y)) => x == y,
        _ => false,
    };
    let r = a.id == b.id && a.name == b.name && versions_match;
    proof {
        if r {
            assert(a@ =~= b@);
        }
    }
    r
}

pub fn same_tcp_info(a: &TcpConnectionInfo, b: &TcpConnectionInfo) -> (r: bool)
    ensures
        r == (a@ == b@),
{
    let r = a.hostname == b.hostname && a.port == b.port;
    proof {
        if r {
            assert(a@ =~= b@);
        }
    }
    r
}

pub fn same_ble_info(a: &BluetoothLeConnectionInfo, b: &BluetoothLeConnectionInfo) -> (r: bool)
    ensures
        r == (a@ == b@),
{
    let r = a.uuid == b.uuid && a.psm == b.psm;
    proof {
        if r {
            assert(a@ =~= b@);
        }
    }
    r
}

/// Field-for-field comparison of two connection descriptors; the registry
/// uses it to decide whether a re-sighting changed anything.
pub fn same_connection_info(a: &DeviceConnectionInfo, b: &DeviceConnectionInfo) -> (r: bool)
    ensures
        r == (a@ == b@),
{
    let devices_match = match (&a.device, &b.device) {
        (None, None) => true,
        (Some(x), Some(y)) => same_device(x, y),
        _ => false,
    };
    let bles_match = match (&a.ble, &b.ble) {
        (None, None) => true,
        (Some(x), Some(y)) => same_ble_info(x, y),
        _ => false,
    };
    let tcps_match = match (&a.tcp, &b.tcp) {
        (None, None) => true,
        (Some(x), Some(y)) => same_tcp_info(x, y),
        _ => false,
    };
    let r = devices_match && bles_match && tcps_match;
    proof {
        if r {
            assert(a@ =~= b@);
        }
    }
    r
}

} // verus!
