use intershare_sdk::bridge::generate_secure_base64_token;
use intershare_sdk::device::{
    BluetoothLeConnectionInfo, Device, DeviceConnectionInfo, TcpConnectionInfo,
};
use intershare_sdk::dial::{after_tcp_failure, first_dial_step, medium_of_step, DialStep};
use intershare_sdk::errors::{ConnectErrors, RequestConvenienceShareErrors};
use intershare_sdk::messages::{
    ClipboardTransferIntent, FileTransferIntent, Intent, Request, RequestTypes,
};
use intershare_sdk::progress::{permille, CompressionProgress, ProgressReader, ProgressWriter};
use intershare_sdk::receive::{
    file_receive_states, receive_result, AcceptPlan, ConnectionIntentType, ConnectionRequest,
    Disposition, FileReceiveOutcome, ReceiveProgressState,
};
use intershare_sdk::sender::{
    compute_file_name, file_send_result, file_send_states, text_send_states, ConnectionMedium,
    FileSendOutcome, SendProgressState, ShareStore, TextSendOutcome,
};
use intershare_sdk::server::{
    is_share_request, make_download_request, parse_convenience_link, parse_convenience_parts,
    port_candidates, NearbyServerState,
};
use intershare_sdk::wire::decode_discovery_record;
use intershare_sdk::{advertising_backoff_ms, is_compatible, VersionCompatibility};

fn device(id: &str) -> Device {
    Device {
        id: id.to_string(),
        name: "Phone".to_string(),
        protocol_version: Some(0),
    }
}

fn store_with(id: &str, allow: bool) -> ShareStore {
    let mut store = ShareStore::new(
        None,
        Some("hello".to_string()),
        allow,
        DeviceConnectionInfo {
            device: Some(device("dev-9")),
            ble: None,
            tcp: Some(TcpConnectionInfo {
                hostname: "192.168.1.2".to_string(),
                port: 4251,
            }),
        },
    );
    store.request_id = id.to_string();
    store
}

#[test]
fn version_compatibility_matches_the_rule() {
    let mut d = device("x");
    d.protocol_version = None;
    assert_eq!(is_compatible(d), VersionCompatibility::OutdatedVersion);
    let mut d = device("x");
    d.protocol_version = Some(0);
    assert_eq!(is_compatible(d), VersionCompatibility::Compatible);
    let mut d = device("x");
    d.protocol_version = Some(1);
    assert_eq!(is_compatible(d), VersionCompatibility::IncompatibleNewVersion);
}

#[test]
fn text_happy_path_states() {
    // Connecting, Transferring 0.0, Transferring 0.8, Finished
    let states = text_send_states(TextSendOutcome::Sent);
    assert_eq!(states.len(), 4);
    assert!(matches!(states[0], SendProgressState::Connecting));
    assert!(matches!(states[1], SendProgressState::Transferring { permille: 0 }));
    assert!(matches!(states[2], SendProgressState::Transferring { permille: 800 }));
    assert!(matches!(states[3], SendProgressState::Finished));

    let store = store_with("tok", true);
    let request = store.make_clipboard_request(&"hello".to_string());
    assert_eq!(request.request_type, RequestTypes::ShareRequest);
    match request.intent {
        Some(Intent::Clipboard(c)) => assert_eq!(c.clipboard_content, "hello"),
        _ => panic!("clipboard intent expected"),
    }
}

#[test]
fn single_file_announcement() {
    let name = compute_file_name(&vec!["/tmp/a.bin".to_string()]);
    assert_eq!(name.as_deref(), Some("a.bin"));
    let none = compute_file_name(&vec!["/a".to_string(), "/b".to_string()]);
    assert!(none.is_none());

    let store = store_with("tok", true);
    let request = store.make_file_request(name, 1_048_576, 1);
    match request.intent {
        Some(Intent::FileTransfer(f)) => {
            assert_eq!(f.file_name.as_deref(), Some("a.bin"));
            assert_eq!(f.file_size, 1_048_576);
            assert_eq!(f.file_count, 1);
        }
        _ => panic!("file intent expected"),
    }
}

#[test]
fn decline_surfaces_declined() {
    let states = file_send_states(FileSendOutcome::Declined);
    assert!(matches!(states.last(), Some(SendProgressState::Declined)));
    let result = file_send_result(FileSendOutcome::Declined, String::new());
    assert!(matches!(result, Err(ConnectErrors::Declined)));
}

#[test]
fn stream_failure_reports_cancelled() {
    let states = file_send_states(FileSendOutcome::StreamFailed);
    assert!(matches!(states[3], SendProgressState::Cancelled));
    assert!(matches!(states[4], SendProgressState::Finished));
}

#[test]
fn generate_link_mints_the_exact_url() {
    let store = store_with("token123", true);
    let link = store.generate_link().expect("link should exist");
    assert_eq!(
        link,
        "https://s.intershare.app?i=token123&ip=192.168.1.2&p=4251&d=dev-9"
    );
    // switched off, or without coordinates: no link
    assert!(store_with("t", false).generate_link().is_none());
    let mut bare = store_with("t", true);
    bare.device_connection_info.tcp = None;
    assert!(bare.generate_link().is_none());
}

#[test]
fn convenience_link_parses_back() {
    let link = "https://s.intershare.app?i=token123&ip=192.168.1.2&p=4251&d=dev-9".to_string();
    let found = parse_convenience_link(&link).expect("link should parse");
    assert_eq!(found.share_id, "token123");
    assert_eq!(found.ip, "192.168.1.2");
    assert_eq!(found.port, 4251);

    assert!(matches!(
        parse_convenience_link(&"https://evil.example?i=a&ip=b&p=1".to_string()),
        Err(RequestConvenienceShareErrors::NotAValidLink)
    ));
    assert!(matches!(
        parse_convenience_link(&"not a url".to_string()),
        Err(RequestConvenienceShareErrors::NotAValidLink)
    ));
    assert!(matches!(
        parse_convenience_link(&"https://s.intershare.app?ip=b&p=1".to_string()),
        Err(RequestConvenienceShareErrors::NotAValidLink)
    ));
}

#[test]
fn convenience_parts_need_all_fields() {
    let host = "s.intershare.app".to_string();
    let pairs = vec![
        ("i".to_string(), "abc".to_string()),
        ("ip".to_string(), "1.2.3.4".to_string()),
        ("p".to_string(), "80".to_string()),
    ];
    let found = parse_convenience_parts(&host, &pairs).expect("should parse");
    assert_eq!(found.share_id, "abc");
    assert_eq!(found.port, 80);

    let bad_port = vec![
        ("i".to_string(), "abc".to_string()),
        ("ip".to_string(), "1.2.3.4".to_string()),
        ("p".to_string(), "eighty".to_string()),
    ];
    assert!(parse_convenience_parts(&host, &bad_port).is_err());
}

#[test]
fn download_request_carries_the_share_id() {
    let request = make_download_request(&Some(device("me")), &"token123".to_string());
    assert_eq!(request.request_type, RequestTypes::ConvenienceDownloadRequest);
    assert_eq!(request.share_id.as_deref(), Some("token123"));
    assert!(request.intent.is_none());
    assert!(is_share_request(&request) == false);
}

#[test]
fn fallback_dial_reaches_ble() {
    let details = DeviceConnectionInfo {
        device: Some(device("peer")),
        ble: Some(BluetoothLeConnectionInfo {
            uuid: "peer-uuid".to_string(),
            psm: 31,
        }),
        tcp: Some(TcpConnectionInfo {
            hostname: "10.1.1.1".to_string(),
            port: 4251,
        }),
    };
    // TCP first
    let first = first_dial_step(&Some(details.clone()));
    assert!(matches!(&first, DialStep::ConnectTcp { hostname, port }
        if hostname == "10.1.1.1" && *port == 4251));
    assert!(matches!(medium_of_step(&first), Some(ConnectionMedium::WiFi)));
    // TCP unreachable: the fallback is BLE, and the observer sees BLE
    let fallback = after_tcp_failure(&details);
    assert!(matches!(&fallback, DialStep::OpenL2cap { peripheral_uuid, psm }
        if peripheral_uuid == "peer-uuid" && *psm == 31));
    assert!(matches!(medium_of_step(&fallback), Some(ConnectionMedium::BLE)));
}

#[test]
fn dial_without_details_fails() {
    let step = first_dial_step(&None);
    assert!(matches!(
        step,
        DialStep::Fail(ConnectErrors::FailedToGetConnectionDetails)
    ));
    let no_media = DeviceConnectionInfo {
        device: Some(device("peer")),
        ble: None,
        tcp: None,
    };
    let step = first_dial_step(&Some(no_media.clone()));
    assert!(matches!(step, DialStep::Fail(ConnectErrors::FailedToGetBleDetails)));
    let step = after_tcp_failure(&no_media);
    assert!(matches!(step, DialStep::Fail(ConnectErrors::FailedToGetBleDetails)));
}

fn clipboard_request(content: &str) -> Request {
    Request {
        request_type: RequestTypes::ShareRequest,
        device: Some(device("sender")),
        share_id: None,
        intent: Some(Intent::Clipboard(ClipboardTransferIntent {
            clipboard_content: content.to_string(),
        })),
    }
}

#[test]
fn receiver_sees_clipboard_content() {
    let request = ConnectionRequest::new(clipboard_request("hello"), "downloads".to_string());
    assert_eq!(request.get_intent_type(), ConnectionIntentType::Clipboard);
    let clip = request.get_clipboard_intent().expect("clipboard expected");
    assert_eq!(clip.clipboard_content, "hello");
    assert!(request.get_file_transfer_intent().is_none());
    assert_eq!(request.get_sender().id, "sender");
}

#[test]
fn is_link_matches_web_links_only() {
    let request = ConnectionRequest::new(
        clipboard_request("https://example.com/page"),
        "d".to_string(),
    );
    assert!(request.is_link());
    let request = ConnectionRequest::new(clipboard_request("hello"), "d".to_string());
    assert!(!request.is_link());
}

#[test]
fn disposition_is_exactly_once() {
    let file_request = Request {
        request_type: RequestTypes::ShareRequest,
        device: Some(device("sender")),
        share_id: None,
        intent: Some(Intent::FileTransfer(FileTransferIntent {
            file_name: Some("a.bin".to_string()),
            file_size: 10,
            file_count: 1,
        })),
    };
    // declining a file request sends a rejecting response
    let mut request = ConnectionRequest::new(file_request.clone(), "downloads".to_string());
    let response = request.decline().expect("file decline responds");
    assert!(!response.accepted);
    assert_eq!(request.disposition, Disposition::Declined);

    // accepting a file request sends an accepting response and then
    // streams into the destination
    let mut request = ConnectionRequest::new(file_request, "downloads".to_string());
    match request.accept() {
        AcceptPlan::ReceiveArchive {
            response,
            destination,
        } => {
            assert!(response.accepted);
            assert_eq!(destination, "downloads");
        }
        AcceptPlan::CloseOnly => panic!("files need a stream"),
    }
    assert_eq!(request.disposition, Disposition::Accepted);

    // clipboard needs neither response nor stream
    let mut request = ConnectionRequest::new(clipboard_request("hi"), "d".to_string());
    assert!(request.decline().is_none());
    let mut request = ConnectionRequest::new(clipboard_request("hi"), "d".to_string());
    assert!(matches!(request.accept(), AcceptPlan::CloseOnly));

    // the cancel flag is observable
    let mut request = ConnectionRequest::new(clipboard_request("hi"), "d".to_string());
    assert!(!request.should_cancel);
    request.cancel();
    assert!(request.should_cancel);
}

#[test]
fn progress_is_clamped_in_thousandths() {
    assert_eq!(permille(0, 100), 0);
    assert_eq!(permille(1, 1000), 1);
    assert_eq!(permille(999, 1000), 999);
    assert_eq!(permille(1000, 1000), 999); // clamped while streaming
    assert_eq!(permille(5000, 1000), 999);
    assert_eq!(permille(7, 0), 0);
}

#[test]
fn byte_counters_accumulate() {
    let mut writer: ProgressWriter<u8> = ProgressWriter::new(0);
    writer.record_write(700);
    writer.record_write(324);
    let (_, sent) = writer.into_inner();
    assert_eq!(sent, 1024);

    let mut reader: ProgressReader<u8> = ProgressReader::new(0);
    assert!(reader.may_read(false));
    assert!(!reader.may_read(true));
    reader.record_read(11);
    let (_, read) = reader.into_inner();
    assert_eq!(read, 11);

    let mut compression = CompressionProgress::new(4, 0);
    assert_eq!(compression.advance(), 250);
    assert_eq!(compression.advance(), 500);
    assert_eq!(compression.finished_files, 2);
}

#[test]
fn tokens_have_the_base64_length() {
    assert_eq!(generate_secure_base64_token(4).len(), 6);
    assert_eq!(generate_secure_base64_token(23).len(), 31);
    let store = ShareStore::new(
        None,
        Some("x".to_string()),
        false,
        DeviceConnectionInfo {
            device: None,
            ble: None,
            tcp: None,
        },
    );
    assert_eq!(store.request_id.len(), 31);
}

#[test]
fn server_state_advertises_its_descriptor() {
    let mut server = NearbyServerState::new(device("me"), "downloads".to_string());
    assert_eq!(server.get_device_name().as_deref(), Some("Phone"));
    assert!(server.get_advertisement_data().is_empty());

    server.set_tcp_details(TcpConnectionInfo {
        hostname: "10.0.0.9".to_string(),
        port: 4251,
    });
    server.set_advertise(true);
    let bytes = server.get_advertisement_data();
    let (decoded, _) = decode_discovery_record(&bytes, 0).expect("advertisement should decode");
    match decoded.content {
        Some(intershare_sdk::device::DiscoveryContent::ConnectionInfo(info)) => {
            let advertised = info.device.unwrap();
            assert_eq!(advertised.id, "me");
            assert_eq!(advertised.protocol_version, Some(0));
            assert_eq!(info.tcp.unwrap().port, 4251);
        }
        _ => panic!("descriptor expected"),
    }
}

#[test]
fn listener_tries_the_prioritized_ports() {
    assert_eq!(port_candidates(), vec![4251u16, 80, 8080, 0]);
}

#[test]
fn receiver_states_bracket_the_archive_phase() {
    let states = file_receive_states(FileReceiveOutcome::Restored);
    assert_eq!(states.len(), 2);
    assert!(matches!(states[0], ReceiveProgressState::Handshake));
    assert!(matches!(states[1], ReceiveProgressState::Finished));
    let states = file_receive_states(FileReceiveOutcome::Failed);
    assert!(matches!(states[0], ReceiveProgressState::Handshake));
    assert!(matches!(states[1], ReceiveProgressState::Cancelled));
}

#[test]
fn failed_receive_returns_the_empty_list() {
    let restored = vec!["out/a.txt".to_string(), "out/b.txt".to_string()];
    assert_eq!(
        receive_result(FileReceiveOutcome::Restored, restored.clone()),
        restored
    );
    assert!(receive_result(FileReceiveOutcome::Failed, restored).is_empty());
}

#[test]
fn advertising_backoff_grows_linearly() {
    assert_eq!(advertising_backoff_ms(1), 1000);
    assert_eq!(advertising_backoff_ms(2), 2000);
    assert_eq!(advertising_backoff_ms(3), 3000);
}
