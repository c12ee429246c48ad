//! The dial sequence: TCP first, BLE L2CAP as the fallback, each step
//! a plain decision from the peer's descriptor.

use vstd::prelude::*;
use crate::device::DeviceConnectionInfo;
use crate::errors::ConnectErrors;
use crate::sender::ConnectionMedium;

verus! {

/// The next thing the driver should try.
pub enum DialStep {
    /// Open a TCP connection to these coordinates, then run the TLS
    /// client handshake over it.
    ConnectTcp { hostname: String, port: u32 },
    /// Ask the platform's L2CAP delegate to open a channel to this
    /// peripheral and hand the pipe back under a fresh connection id.
    OpenL2cap { peripheral_uuid: String, psm: u32 },
    /// No medium is left to try.
    Fail(ConnectErrors),
}

/// The first dial step for a peer: its TCP coordinates when it has
/// any, else straight to the BLE fallback.
pub fn first_dial_step(details: &Option<DeviceConnectionInfo>) -> (r: DialStep)
    ensures
        match r {
            DialStep::ConnectTcp { hostname, port } => details matches Some(i) && (i.tcp matches
                Some(t) && t@.hostname == hostname@ && t@.port == port),
            DialStep::OpenL2cap { peripheral_uuid, psm } => details matches Some(i) && (i.tcp
                is None && (i.ble matches Some(b) && b@.uuid == peripheral_uuid@ && b@.psm
                == psm)),
            DialStep::Fail(e) => (details is None && e is FailedToGetConnectionDetails) || (
            details matches Some(i) && (i.tcp is None && i.ble is None
                && e is FailedToGetBleDetails)),
        },
{
    match details {
        None => DialStep::Fail(ConnectErrors::FailedToGetConnectionDetails),
        Some(info) => match &info.tcp {
            Some(t) => DialStep::ConnectTcp { hostname: t.hostname.clone(), port: t.port },
            None => match &info.ble {
                Some(b) => DialStep::OpenL2cap { peripheral_uuid: b.uuid.clone(), psm: b.psm },
                None => DialStep::Fail(ConnectErrors::FailedToGetBleDetails),
            },
        },
    }
}

/// The step after a failed TCP dial: the BLE fallback when the peer
/// advertises it, else the failure.
pub fn after_tcp_failure(details: &DeviceConnectionInfo) -> (r: DialStep)
    ensures
        match r {
            DialStep::OpenL2cap { peripheral_uuid, psm } => details.ble matches Some(b) && b@.uuid
                == peripheral_uuid@ && b@.psm == psm,
            DialStep::Fail(e) => details.ble is None && e is FailedToGetBleDetails,
            DialStep::ConnectTcp { .. } => false,
        },
{
    match &details.ble {
        Some(b) => DialStep::OpenL2cap { peripheral_uuid: b.uuid.clone(), psm: b.psm },
        None => DialStep::Fail(ConnectErrors::FailedToGetBleDetails),
    }
}

/// The medium update the observer gets when a step succeeds.
pub fn medium_of_step(step: &DialStep) -> (r: Option<ConnectionMedium>)
    ensures
        match r {
            Some(m) => ((m is WiFi) == (step is ConnectTcp)) && ((m is BLE) == (step
                is OpenL2cap)),
            None => step is Fail,
        },
{
    match step {
        DialStep::ConnectTcp { .. } => Some(ConnectionMedium::WiFi),
        DialStep::OpenL2cap { .. } => Some(ConnectionMedium::BLE),
        DialStep::Fail(_) => None,
    }
}

} // verus!
