//! The receiver side's state: what it advertises, where it listens,
//! and how it reads a convenience link.

use vstd::prelude::*;
use crate::device::{
    Device, DeviceConnectionInfo, TcpConnectionInfo, BluetoothLeConnectionInfo,
    DeviceDiscoveryMessage, DiscoveryContent,
};
use crate::errors::RequestConvenienceShareErrors;
use crate::messages::{Request, RequestTypes};
use crate::strnum::{is_dec_string, dec_val, parse_u32};
use vstd::string::{StringExecFns, StrSliceExecFns};
use crate::wire::{encode_discovery_record, enc_discovery_record, opt_device_view};
use crate::bridge::{parse_link_parts, link_parses, link_host_of, link_query_of};
use crate::PROTOCOL_VERSION;

verus! {

/// Implemented by the platform to run the BLE advertisement server.
pub trait BleServerImplementationDelegate {
    fn start_server(&self);

    fn stop_server(&self);
}

/// Implemented by the platform to run the BLE scanner.
pub trait BleDiscoveryImplementationDelegate {
    fn start_scanning(&self);

    fn stop_scanning(&self);
}

/// Implemented by the platform to open an L2CAP channel toward a
/// peripheral; the pipe comes back through the rendezvous under
/// `connection_id`.
pub trait L2CapDelegate {
    fn open_l2cap_connection(&self, connection_id: String, peripheral_uuid: String, psm: u32);
}

/// Implemented by the application to be offered each inbound request.
pub trait NearbyInstantReceiveDelegate {
    fn requested_instant_file_receive(&self, device: Device, request_id: String) -> bool;
}

/// The capability triple of an encrypted stream: blocking read,
/// blocking write, idempotent close.
pub trait EncryptedReadWrite {
    /// Read up to `max` bytes; empty means the peer closed.
    fn read_some(&mut self, max: usize) -> Vec<u8>;

    /// Write all of `data`; false means the pipe broke.
    fn write_all(&mut self, data: &Vec<u8>) -> bool;

    /// Close the stream; safe to call more than once.
    fn close(&mut self);
}

/// The prioritized TCP bind list: well-known first, then an ephemeral
/// port.
pub fn port_candidates() -> (r: Vec<u16>)
    ensures
        r@ == seq![4251u16, 80u16, 8080u16, 0u16],
{
    let mut r: Vec<u16> = Vec::new();
    r.push(4251);
    r.push(80);
    r.push(8080);
    r.push(0);
    proof {
        assert(r@ =~= seq![4251u16, 80u16, 8080u16, 0u16]);
    }
    r
}

/// Whether an inbound request opens a share (and so deserves a
/// `ConnectionRequest`); a convenience download is the future
/// extension and gets nothing yet.
pub fn is_share_request(req: &Request) -> (r: bool)
    ensures
        r == (req.request_type == RequestTypes::ShareRequest),
{
    match req.request_type {
        RequestTypes::ShareRequest => true,
        RequestTypes::ConvenienceDownloadRequest => false,
    }
}

/// The state the listener advertises and serves.
pub struct NearbyServerState {
    pub advertise: bool,
    pub device_connection_info: DeviceConnectionInfo,
    pub file_storage: String,
}

impl NearbyServerState {
    /// A new server around this identity; the current protocol version
    /// is stamped into whatever the caller passed.
    pub fn new(my_device: Device, file_storage: String) -> (r: Self)
        ensures
            !r.advertise,
            r.file_storage == file_storage,
            r.device_connection_info.ble is None,
            r.device_connection_info.tcp is None,
            r.device_connection_info.device matches Some(d) && d@.id == my_device@.id && d@.name
                == my_device@.name && d@.protocol_version == Some(PROTOCOL_VERSION),
    {
        let device = Device {
            id: my_device.id,
            name: my_device.name,
            protocol_version: Some(PROTOCOL_VERSION),
        };
        NearbyServerState {
            advertise: false,
            device_connection_info: DeviceConnectionInfo {
                device: Some(device),
                ble: None,
                tcp: None,
            },
            file_storage,
        }
    }

    /// Replace the advertised identity, stamping the protocol version.
    pub fn change_device(&mut self, new_device: Device)
        ensures
            final(self).advertise == old(self).advertise,
            final(self).file_storage == old(self).file_storage,
            final(self).device_connection_info.ble == old(self).device_connection_info.ble,
            final(self).device_connection_info.tcp == old(self).device_connection_info.tcp,
            final(self).device_connection_info.device matches Some(d) && d@.id == new_device@.id
                && d@.name == new_device@.name && d@.protocol_version == Some(PROTOCOL_VERSION),
    {
        self.device_connection_info.device = Some(
            Device {
                id: new_device.id,
                name: new_device.name,
                protocol_version: Some(PROTOCOL_VERSION),
            },
        );
    }

    /// Record the BLE coordinates the platform obtained.
    pub fn set_bluetooth_le_details(&mut self, ble_info: BluetoothLeConnectionInfo)
        ensures
            final(self).advertise == old(self).advertise,
            final(self).file_storage == old(self).file_storage,
            final(self).device_connection_info.device == old(
                self,
            ).device_connection_info.device,
            final(self).device_connection_info.tcp == old(self).device_connection_info.tcp,
            final(self).device_connection_info.ble matches Some(b) && b@ == ble_info@,
    {
        self.device_connection_info.ble = Some(ble_info);
    }

    /// Record the TCP coordinates the listener bound.
    pub fn set_tcp_details(&mut self, tcp_info: TcpConnectionInfo)
        ensures
            final(self).advertise == old(self).advertise,
            final(self).file_storage == old(self).file_storage,
            final(self).device_connection_info.device == old(
                self,
            ).device_connection_info.device,
            final(self).device_connection_info.ble == old(self).device_connection_info.ble,
            final(self).device_connection_info.tcp matches Some(t) && t@ == tcp_info@,
    {
        self.device_connection_info.tcp = Some(tcp_info);
    }

    /// Start or stop advertising.
    pub fn set_advertise(&mut self, on: bool)
        ensures
            final(self).advertise == on,
            final(self).file_storage == old(self).file_storage,
            final(self).device_connection_info == old(self).device_connection_info,
    {
        self.advertise = on;
    }

    /// The advertised name, when an identity is set.
    pub fn get_device_name(&self) -> (r: Option<String>)
        ensures
            match r {
                Some(n) => self.device_connection_info.device matches Some(d) && d@.name == n@,
                None => self.device_connection_info.device is None,
            },
    {
        match &self.device_connection_info.device {
            Some(d) => Some(d.name.clone()),
            None => None,
        }
    }

    /// The bytes the discovery characteristic serves: the
    /// length-delimited descriptor while advertising, nothing
    /// otherwise.
    pub fn get_advertisement_data(&self) -> (r: Vec<u8>)
        ensures
            self.advertise ==> r@ == enc_discovery_record(
                crate::device::DeviceDiscoveryMessageView {
                    content: Some(
                        crate::device::DiscoveryContentView::ConnectionInfo(
                            self.device_connection_info@,
                        ),
                    ),
                },
            ),
            !self.advertise ==> r@.len() == 0,
    {
        if self.advertise {
            let msg = DeviceDiscoveryMessage {
                content: Some(
                    DiscoveryContent::ConnectionInfo(self.device_connection_info.clone()),
                ),
            };
            encode_discovery_record(&msg)
        } else {
            Vec::new()
        }
    }
}

// ---------------------------------------------------------------------
// Convenience links.
// ---------------------------------------------------------------------

/// The coordinates a convenience link carries.
pub struct ConvenienceLink {
    pub share_id: String,
    pub ip: String,
    pub port: u32,
}

/// The first nonempty value of a key among the query pairs.
pub open spec fn query_val(pairs: Seq<(Seq<char>, Seq<char>)>, key: Seq<char>) -> Option<
    Seq<char>,
>
    decreases pairs.len(),
{
    if pairs.len() == 0 {
        None
    } else if pairs[0].0 == key && pairs[0].1.len() > 0 {
        Some(pairs[0].1)
    } else {
        query_val(pairs.drop_first(), key)
    }
}

fn find_query(pairs: &Vec<(String, String)>, key: &String) -> (r: Option<String>)
    ensures
        match r {
            Some(v) => query_val(
                pairs@.map_values(|p: (String, String)| (p.0@, p.1@)),
                key@,
            ) == Some(v@),
            None => query_val(pairs@.map_values(|p: (String, String)| (p.0@, p.1@)), key@)
                is None,
        },
{
    let ghost pv = pairs@.map_values(|p: (String, String)| (p.0@, p.1@));
    let mut i: usize = 0;
    proof {
        assert(pv.skip(0) =~= pv);
    }
    while i < pairs.len()
        invariant
            i <= pairs@.len(),
            pv == pairs@.map_values(|p: (String, String)| (p.0@, p.1@)),
            query_val(pv, key@) == query_val(pv.skip(i as int), key@),
        decreases pairs@.len() - i,
    {
        proof {
            assert(pv.skip(i as int)[0] == pv[i as int]);
            assert(pv.skip(i as int).drop_first() =~= pv.skip(i as int + 1));
        }
        if pairs[i].0 == *key && pairs[i].1.as_str().unicode_len() > 0 {
            return Some(pairs[i].1.clone());
        }
        i = i + 1;
    }
    None
}

/// Read the fields out of already-parsed link parts: the host must be
/// exactly the share host, and `i`, `ip` and `p` must be present and
/// nonempty, with `p` a port number.
pub fn parse_convenience_parts(host: &String, pairs: &Vec<(String, String)>) -> (r: Result<
    ConvenienceLink,
    RequestConvenienceShareErrors,
>)
    ensures
        ({
            let pv = pairs@.map_values(|p: (String, String)| (p.0@, p.1@));
            match r {
                Ok(link) => {
                    &&& host@ == "s.intershare.app"@
                    &&& query_val(pv, "i"@) == Some(link.share_id@)
                    &&& query_val(pv, "ip"@) == Some(link.ip@)
                    &&& query_val(pv, "p"@) matches Some(p) && is_dec_string(p) && dec_val(p)
                        == link.port
                },
                Err(e) => {
                    &&& e is NotAValidLink
                    &&& host@ != "s.intershare.app"@ || query_val(pv, "i"@) is None || query_val(
                        pv,
                        "ip"@,
                    ) is None || (query_val(pv, "p"@) matches Some(p) ==> !is_dec_string(p)
                        || dec_val(p) > u32::MAX)
                },
            }
        }),
{
    let expected_host = String::from_str("s.intershare.app");
    if !(*host == expected_host) {
        return Err(RequestConvenienceShareErrors::NotAValidLink);
    }
    let share_id = match find_query(pairs, &String::from_str("i")) {
        Some(v) => v,
        None => {
            return Err(RequestConvenienceShareErrors::NotAValidLink);
        },
    };
    let ip = match find_query(pairs, &String::from_str("ip")) {
        Some(v) => v,
        None => {
            return Err(RequestConvenienceShareErrors::NotAValidLink);
        },
    };
    let port_text = match find_query(pairs, &String::from_str("p")) {
        Some(v) => v,
        None => {
            return Err(RequestConvenienceShareErrors::NotAValidLink);
        },
    };
    let port = match parse_u32(&port_text) {
        Some(p) => p,
        None => {
            return Err(RequestConvenienceShareErrors::NotAValidLink);
        },
    };
    Ok(ConvenienceLink { share_id, ip, port })
}

/// Parse a convenience link from its text: the coordinates are exactly
/// what URL parsing reads out of the link, and the link is refused
/// exactly when it does not parse, names another host, misses one of
/// the `i`, `ip`, `p` keys, or carries a `p` that is no port number.
pub fn parse_convenience_link(link: &String) -> (r: Result<
    ConvenienceLink,
    RequestConvenienceShareErrors,
>)
    ensures
        match r {
            Ok(found) => {
                &&& link_parses(link@)
                &&& link_host_of(link@) == "s.intershare.app"@
                &&& query_val(link_query_of(link@), "i"@) == Some(found.share_id@)
                &&& query_val(link_query_of(link@), "ip"@) == Some(found.ip@)
                &&& query_val(link_query_of(link@), "p"@) matches Some(p) && is_dec_string(p)
                    && dec_val(p) == found.port
            },
            Err(e) => {
                &&& e is NotAValidLink
                &&& !link_parses(link@) || link_host_of(link@) != "s.intershare.app"@
                    || query_val(link_query_of(link@), "i"@) is None || query_val(
                    link_query_of(link@),
                    "ip"@,
                ) is None || (query_val(link_query_of(link@), "p"@) matches Some(p)
                    ==> !is_dec_string(p) || dec_val(p) > u32::MAX)
            },
        },
{
    match parse_link_parts(link.as_str()) {
        None => Err(RequestConvenienceShareErrors::NotAValidLink),
        Some((host, pairs)) => parse_convenience_parts(&host, &pairs),
    }
}

/// The anonymous pull a convenience link turns into: a download
/// request carrying the share id, dialed at the link's coordinates.
pub fn make_download_request(my_device: &Option<Device>, share_id: &String) -> (r: Request)
    ensures
        r.request_type == RequestTypes::ConvenienceDownloadRequest,
        opt_device_view(r.device) == opt_device_view(*my_device),
        r.share_id matches Some(s) && s@ == share_id@,
        r.intent is None,
{
    Request {
        request_type: RequestTypes::ConvenienceDownloadRequest,
        device: match my_device {
            Some(d) => Some(d.clone()),
            None => None,
        },
        share_id: Some(share_id.clone()),
        intent: None,
    }
}

} // verus!
