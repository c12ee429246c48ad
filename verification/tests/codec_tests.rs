use intershare_sdk::device::{
    BluetoothLeConnectionInfo, Device, DeviceConnectionInfo, DeviceDiscoveryMessage,
    DiscoveryContent, TcpConnectionInfo,
};
use intershare_sdk::messages::{
    ClipboardTransferIntent, FileTransferIntent, Intent, Request, RequestTypes,
    TransferRequestResponse,
};
use intershare_sdk::varint::{varint_read, varint_write};
use intershare_sdk::wire::{
    decode_discovery_record, decode_request_record, decode_response_record,
    encode_discovery_record, encode_request_record, encode_response_record, read_frame,
    write_frame, CodecError,
};

fn sample_device() -> Device {
    Device {
        id: "device-1".to_string(),
        name: "Laptop".to_string(),
        protocol_version: Some(0),
    }
}

#[test]
fn varint_round_trips() {
    for v in [0u64, 1, 127, 128, 300, 16384, u32::MAX as u64, u64::MAX] {
        let mut buf = Vec::new();
        varint_write(&mut buf, v);
        let (value, end) = varint_read(&buf, 0).expect("varint should read back");
        assert_eq!(value, v);
        assert_eq!(end, buf.len());
    }
}

#[test]
fn frame_consumes_exactly_the_record() {
    // A correctly length-delimited record followed by raw bytes: the
    // reader takes exactly the record, and a subsequent raw read sees
    // the trailing bytes untouched.
    let payload = vec![9u8, 8, 7, 6];
    let mut bytes = Vec::new();
    write_frame(&mut bytes, &payload);
    let frame_len = bytes.len();
    let raw = [1u8, 2, 3, 4, 5];
    bytes.extend_from_slice(&raw);
    let (read_payload, end) = read_frame(&bytes, 0).expect("frame should parse");
    assert_eq!(read_payload, payload);
    assert_eq!(end, frame_len);
    assert_eq!(&bytes[end..], &raw);
}

#[test]
fn clipboard_request_round_trips_byte_for_byte() {
    let request = Request {
        request_type: RequestTypes::ShareRequest,
        device: Some(sample_device()),
        share_id: None,
        intent: Some(Intent::Clipboard(ClipboardTransferIntent {
            clipboard_content: "hello".to_string(),
        })),
    };
    let bytes = encode_request_record(&request);
    let (decoded, used) = decode_request_record(&bytes, 0).expect("should decode");
    assert_eq!(used, bytes.len());
    assert_eq!(decoded.request_type, RequestTypes::ShareRequest);
    let device = decoded.device.expect("device should survive");
    assert_eq!(device.id, "device-1");
    assert_eq!(device.name, "Laptop");
    assert_eq!(device.protocol_version, Some(0));
    assert!(decoded.share_id.is_none());
    match decoded.intent {
        Some(Intent::Clipboard(c)) => assert_eq!(c.clipboard_content, "hello"),
        _ => panic!("clipboard intent should survive"),
    }
}

#[test]
fn file_request_round_trips() {
    let request = Request {
        request_type: RequestTypes::ShareRequest,
        device: Some(sample_device()),
        share_id: Some("share-77".to_string()),
        intent: Some(Intent::FileTransfer(FileTransferIntent {
            file_name: Some("a.bin".to_string()),
            file_size: 1_048_576,
            file_count: 1,
        })),
    };
    let mut bytes = encode_request_record(&request);
    bytes.push(0xAB); // trailing garbage must not be consumed
    let (decoded, used) = decode_request_record(&bytes, 0).expect("should decode");
    assert_eq!(used, bytes.len() - 1);
    assert_eq!(decoded.share_id.as_deref(), Some("share-77"));
    match decoded.intent {
        Some(Intent::FileTransfer(f)) => {
            assert_eq!(f.file_name.as_deref(), Some("a.bin"));
            assert_eq!(f.file_size, 1_048_576);
            assert_eq!(f.file_count, 1);
        }
        _ => panic!("file intent should survive"),
    }
}

#[test]
fn response_round_trips() {
    for accepted in [true, false] {
        let bytes = encode_response_record(&TransferRequestResponse { accepted });
        let (decoded, used) = decode_response_record(&bytes, 0).expect("should decode");
        assert_eq!(decoded.accepted, accepted);
        assert_eq!(used, bytes.len());
    }
}

#[test]
fn discovery_message_round_trips() {
    let info = DeviceConnectionInfo {
        device: Some(sample_device()),
        ble: Some(BluetoothLeConnectionInfo {
            uuid: "AA-BB".to_string(),
            psm: 67,
        }),
        tcp: Some(TcpConnectionInfo {
            hostname: "192.168.1.4".to_string(),
            port: 4251,
        }),
    };
    let msg = DeviceDiscoveryMessage {
        content: Some(DiscoveryContent::ConnectionInfo(info)),
    };
    let bytes = encode_discovery_record(&msg);
    let (decoded, used) = decode_discovery_record(&bytes, 0).expect("should decode");
    assert_eq!(used, bytes.len());
    match decoded.content {
        Some(DiscoveryContent::ConnectionInfo(i)) => {
            assert_eq!(i.device.unwrap().id, "device-1");
            let ble = i.ble.unwrap();
            assert_eq!(ble.uuid, "AA-BB");
            assert_eq!(ble.psm, 67);
            let tcp = i.tcp.unwrap();
            assert_eq!(tcp.hostname, "192.168.1.4");
            assert_eq!(tcp.port, 4251);
        }
        _ => panic!("connection info should survive"),
    }
}

#[test]
fn offline_message_round_trips() {
    let msg = DeviceDiscoveryMessage {
        content: Some(DiscoveryContent::OfflineDeviceId("device-1".to_string())),
    };
    let bytes = encode_discovery_record(&msg);
    let (decoded, _) = decode_discovery_record(&bytes, 0).expect("should decode");
    match decoded.content {
        Some(DiscoveryContent::OfflineDeviceId(id)) => assert_eq!(id, "device-1"),
        _ => panic!("offline id should survive"),
    }
}

#[test]
fn truncated_record_is_a_short_read() {
    let request = Request {
        request_type: RequestTypes::ShareRequest,
        device: None,
        share_id: None,
        intent: Some(Intent::Clipboard(ClipboardTransferIntent {
            clipboard_content: "hello".to_string(),
        })),
    };
    let bytes = encode_request_record(&request);
    let truncated: Vec<u8> = bytes[..bytes.len() - 1].to_vec();
    assert!(matches!(
        decode_request_record(&truncated, 0),
        Err(CodecError::ShortRead)
    ));
    let empty: Vec<u8> = Vec::new();
    assert!(matches!(
        decode_request_record(&empty, 0),
        Err(CodecError::ShortRead)
    ));
}

#[test]
fn garbage_record_is_a_decode_error() {
    // a frame whose payload is not a request
    let mut bytes = Vec::new();
    write_frame(&mut bytes, &vec![0xFFu8, 0xEE, 0xDD]);
    assert!(matches!(
        decode_request_record(&bytes, 0),
        Err(CodecError::DecodeError)
    ));
}
