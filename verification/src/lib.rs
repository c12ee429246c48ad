use vstd::prelude::*;

pub mod bridge;
pub mod device;
pub mod dial;
pub mod errors;
pub mod extract;
pub mod messages;
pub mod paths;
pub mod progress;
pub mod receive;
pub mod registry;
pub mod sender;
pub mod server;
pub mod strnum;
pub mod tarfmt;
pub mod varint;
pub mod wire;

verus! {

/// Protocol version advertised in every `Device` this library announces.
pub const PROTOCOL_VERSION: u32 = 0;

/// Capacity of the buffered writer between the archive producer and the pipe.
pub const BLE_BUFFER_SIZE: usize = 1024;

/// How long a TCP dial may take before the BLE fallback is tried.
pub const TCP_DIAL_TIMEOUT_MS: u64 = 2000;

/// How many GATT connections the scanner keeps open at once.
pub const MAX_CONCURRENT_BLE_CONNECTIONS: u32 = 5;

/// Per-connection GATT timeout, retries, and backoff between them.
pub const BLE_CONNECT_TIMEOUT_MS: u64 = 8000;

pub const BLE_CONNECT_RETRIES: u32 = 2;

pub const BLE_RETRY_BACKOFF_MS: u64 = 200;

/// The scanner's radio duty cycle: scan, pause, repeat until stopped.
pub const SCAN_DUTY_ON_MS: u64 = 12000;

pub const SCAN_DUTY_OFF_MS: u64 = 1000;

/// How long a sighting of the same advertiser is ignored.
pub const DEDUP_WINDOW_MS: u64 = 3000;

/// Advertising-start retries, backed off linearly per attempt.
pub const MAX_ADVERTISING_RETRIES: u32 = 3;

pub const ADVERTISING_RETRY_DELAY_MS: u64 = 1000;

/// The delay before the given advertising retry.
pub fn advertising_backoff_ms(attempt: u32) -> (r: u64)
    ensures
        r == ADVERTISING_RETRY_DELAY_MS * attempt,
{
    ADVERTISING_RETRY_DELAY_MS * (attempt as u64)
}

pub open spec fn spec_ble_service_uuid() -> Seq<char> {
    "68D60EB2-8AAA-4D72-8851-BD6D64E169B7"@
}

pub open spec fn spec_ble_discovery_characteristic_uuid() -> Seq<char> {
    "0BEBF3FE-9A5E-4ED1-8157-76281B3F0DA5"@
}

pub fn get_ble_service_uuid() -> (r: String)
    ensures
        r@ == spec_ble_service_uuid(),
{
    String::from_str("68D60EB2-8AAA-4D72-8851-BD6D64E169B7")
}

pub fn get_ble_discovery_characteristic_uuid() -> (r: String)
    ensures
        r@ == spec_ble_discovery_characteristic_uuid(),
{
    String::from_str("0BEBF3FE-9A5E-4ED1-8157-76281B3F0DA5")
}

/// Result of comparing a peer's advertised protocol version with our own.
#[derive(PartialEq, Eq, Structural, Clone, Copy, Debug)]
pub enum VersionCompatibility {
    Compatible,
    OutdatedVersion,
    IncompatibleNewVersion,
}

/// An absent version is treated as older than the current protocol.
pub open spec fn spec_compatibility(remote: Option<u32>) -> VersionCompatibility {
    match remote {
        None => VersionCompatibility::OutdatedVersion,
        Some(v) => if v < PROTOCOL_VERSION {
            VersionCompatibility::OutdatedVersion
        } else if v > PROTOCOL_VERSION {
            VersionCompatibility::IncompatibleNewVersion
        } else {
            VersionCompatibility::Compatible
        },
    }
}

pub fn is_compatible(device: device::Device) -> (r: VersionCompatibility)
    ensures
        r == spec_compatibility(device.protocol_version),
{
    match device.protocol_version {
        None => VersionCompatibility::OutdatedVersion,
        Some(v) => {
            if v < PROTOCOL_VERSION {
                VersionCompatibility::OutdatedVersion
            } else if v > PROTOCOL_VERSION {
                VersionCompatibility::IncompatibleNewVersion
            } else {
                VersionCompatibility::Compatible
            }
        },
    }
}

} // verus!
