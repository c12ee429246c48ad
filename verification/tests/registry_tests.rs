use intershare_sdk::device::{
    BluetoothLeConnectionInfo, Device, DeviceConnectionInfo, DeviceDiscoveryMessage,
    DiscoveryContent, TcpConnectionInfo,
};
use intershare_sdk::registry::{DiscoveryEvent, DiscoveryRegistry};
use intershare_sdk::wire::encode_discovery_record;

fn device(id: &str, name: &str) -> Device {
    Device {
        id: id.to_string(),
        name: name.to_string(),
        protocol_version: Some(0),
    }
}

fn online(id: &str, name: &str, port: u32) -> DeviceDiscoveryMessage {
    DeviceDiscoveryMessage {
        content: Some(DiscoveryContent::ConnectionInfo(DeviceConnectionInfo {
            device: Some(device(id, name)),
            ble: None,
            tcp: Some(TcpConnectionInfo {
                hostname: "10.0.0.1".to_string(),
                port,
            }),
        })),
    }
}

fn offline(id: &str) -> DeviceDiscoveryMessage {
    DeviceDiscoveryMessage {
        content: Some(DiscoveryContent::OfflineDeviceId(id.to_string())),
    }
}

#[test]
fn registry_holds_exactly_the_last_online_devices() {
    let mut registry = DiscoveryRegistry::new();
    registry.apply_message(online("a", "Alpha", 1), None);
    registry.apply_message(online("b", "Beta", 2), None);
    registry.apply_message(offline("a"), None);

    assert!(registry.get_connection_details(&device("a", "Alpha")).is_none());
    let b = registry
        .get_connection_details(&device("b", "Beta"))
        .expect("b should be present");
    assert_eq!(b.tcp.unwrap().port, 2);

    let devices = registry.get_devices();
    assert_eq!(devices.len(), 1);
    assert_eq!(devices[0].id, "b");
}

#[test]
fn device_added_fires_for_new_and_changed_only() {
    let mut registry = DiscoveryRegistry::new();

    let events = registry.apply_message(online("a", "Alpha", 1), None);
    assert_eq!(events.len(), 1);
    assert!(matches!(&events[0], DiscoveryEvent::DeviceAdded(d) if d.id == "a"));

    // identical re-sighting: no event
    let events = registry.apply_message(online("a", "Alpha", 1), None);
    assert!(events.is_empty());

    // changed descriptor: added again
    let events = registry.apply_message(online("a", "Alpha", 9), None);
    assert_eq!(events.len(), 1);
    assert!(matches!(&events[0], DiscoveryEvent::DeviceAdded(d) if d.id == "a"));
}

#[test]
fn device_removed_fires_for_offline() {
    let mut registry = DiscoveryRegistry::new();
    registry.apply_message(online("a", "Alpha", 1), None);
    let events = registry.apply_message(offline("a"), None);
    assert_eq!(events.len(), 1);
    assert!(matches!(&events[0], DiscoveryEvent::DeviceRemoved(id) if id == "a"));
}

#[test]
fn ble_uuid_is_stamped_into_the_stored_descriptor() {
    let mut registry = DiscoveryRegistry::new();
    let msg = DeviceDiscoveryMessage {
        content: Some(DiscoveryContent::ConnectionInfo(DeviceConnectionInfo {
            device: Some(device("a", "Alpha")),
            ble: Some(BluetoothLeConnectionInfo {
                uuid: "advertised".to_string(),
                psm: 5,
            }),
            tcp: None,
        })),
    };
    registry.apply_message(msg, Some("transport-uuid".to_string()));
    let stored = registry
        .get_connection_details(&device("a", "Alpha"))
        .expect("a should be present");
    let ble = stored.ble.unwrap();
    assert_eq!(ble.uuid, "transport-uuid");
    assert_eq!(ble.psm, 5);
}

#[test]
fn parse_discovery_message_decodes_and_applies() {
    let mut registry = DiscoveryRegistry::new();
    let bytes = encode_discovery_record(&online("a", "Alpha", 1));
    let events = registry.parse_discovery_message(&bytes, None);
    assert_eq!(events.len(), 1);
    assert!(registry.get_connection_details(&device("a", "Alpha")).is_some());

    // bytes that do not decode change nothing
    let junk = vec![0xFFu8, 0xFF, 0xFF];
    let events = registry.parse_discovery_message(&junk, None);
    assert!(events.is_empty());
    assert!(registry.get_connection_details(&device("a", "Alpha")).is_some());
}

#[test]
fn clear_forgets_everyone() {
    let mut registry = DiscoveryRegistry::new();
    registry.apply_message(online("a", "Alpha", 1), None);
    registry.clear();
    assert!(registry.get_connection_details(&device("a", "Alpha")).is_none());
    assert!(registry.get_devices().is_empty());
}

#[test]
fn message_without_device_changes_nothing() {
    let mut registry = DiscoveryRegistry::new();
    let msg = DeviceDiscoveryMessage {
        content: Some(DiscoveryContent::ConnectionInfo(DeviceConnectionInfo {
            device: None,
            ble: None,
            tcp: None,
        })),
    };
    let events = registry.apply_message(msg, None);
    assert!(events.is_empty());
    assert!(registry.get_devices().is_empty());
}
