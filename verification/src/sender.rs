//! The sender session: one outbound payload, the requests it sends,
//! the states its observer sees, and the convenience link it mints.

use vstd::prelude::*;
use vstd::string::StringExecFns;
use crate::device::{Device, DeviceConnectionInfo};
use crate::messages::{
    Request, RequestTypes, Intent, FileTransferIntent, ClipboardTransferIntent,
};
use crate::paths::{spec_normalize, normalize_path};
use crate::strnum::{dec_digits, append_u64};
use crate::bridge::generate_secure_base64_token;
use crate::wire::{opt_device_view, opt_str_view, opt_intent_view};

verus! {

/// How the two peers ended up talking.
pub enum ConnectionMedium {
    BLE,
    WiFi,
}

/// What a sender's observer sees, in order; transfer progress is in
/// thousandths.
pub enum SendProgressState {
    Unknown,
    Connecting,
    Requesting,
    ConnectionMediumUpdate { medium: ConnectionMedium },
    Transferring { permille: u32 },
    Cancelled,
    Finished,
    Declined,
}

/// Implemented by the application to watch an outbound transfer.
pub trait SendProgressDelegate {
    fn progress_changed(&self, progress: SendProgressState);
}

/// A snapshot of the single outbound session slot.
pub struct CurrentShareStore {
    pub request_id: String,
    pub file_paths: Option<Vec<String>>,
    pub clipboard: Option<String>,
}

/// One outbound payload: file paths or text, a fresh share token, and
/// the owner's connection descriptor for minting links.
pub struct ShareStore {
    pub request_id: String,
    pub file_paths: Option<Vec<String>>,
    pub clipboard: Option<String>,
    pub allow_convenience_share: bool,
    pub device_connection_info: DeviceConnectionInfo,
}

/// The single file name announced in a request: the normalized name of
/// the one path when exactly one is shared, absent otherwise.
pub open spec fn spec_file_name(paths: Seq<String>) -> Option<Seq<char>> {
    if paths.len() == 1 {
        Some(spec_normalize(paths[0]@))
    } else {
        None
    }
}

/// The announced file name for a list of paths.
pub fn compute_file_name(paths: &Vec<String>) -> (r: Option<String>)
    ensures
        opt_str_view(r) == spec_file_name(paths@),
{
    if paths.len() == 1 {
        Some(normalize_path(&paths[0]))
    } else {
        None
    }
}

impl ShareStore {
    /// A new session around the payload, with a fresh 23-byte share
    /// token.
    pub fn new(
        file_paths: Option<Vec<String>>,
        clipboard: Option<String>,
        allow_convenience_share: bool,
        device_connection_info: DeviceConnectionInfo,
    ) -> (r: Self)
        ensures
            r.file_paths == file_paths,
            r.clipboard == clipboard,
            r.allow_convenience_share == allow_convenience_share,
            r.device_connection_info == device_connection_info,
            r.request_id@.len() == 31,
    {
        ShareStore {
            request_id: generate_secure_base64_token(23),
            file_paths,
            clipboard,
            allow_convenience_share,
            device_connection_info,
        }
    }

    /// The first record of a clipboard share: the text rides inside the
    /// request and no response is awaited.
    pub fn make_clipboard_request(&self, text: &String) -> (r: Request)
        ensures
            r.request_type == RequestTypes::ShareRequest,
            opt_device_view(r.device) == opt_device_view(self.device_connection_info.device),
            r.share_id is None,
            opt_intent_view(r.intent) matches Some(i) && i matches
                crate::messages::IntentView::Clipboard(c) && c == text@,
    {
        Request {
            request_type: RequestTypes::ShareRequest,
            device: match &self.device_connection_info.device {
                Some(d) => Some(d.clone()),
                None => None,
            },
            share_id: None,
            intent: Some(
                Intent::Clipboard(ClipboardTransferIntent { clipboard_content: text.clone() }),
            ),
        }
    }

    /// The first record of a file share: name (when single), total
    /// size, and count.
    pub fn make_file_request(&self, file_name: Option<String>, file_size: u64, file_count: u64) -> (r: Request)
        ensures
            r.request_type == RequestTypes::ShareRequest,
            opt_device_view(r.device) == opt_device_view(self.device_connection_info.device),
            r.share_id is None,
            opt_intent_view(r.intent) matches Some(i) && i matches
                crate::messages::IntentView::FileTransfer(f) && f.file_name == opt_str_view(
                file_name,
            ) && f.file_size == file_size && f.file_count == file_count,
    {
        Request {
            request_type: RequestTypes::ShareRequest,
            device: match &self.device_connection_info.device {
                Some(d) => Some(d.clone()),
                None => None,
            },
            share_id: None,
            intent: Some(
                Intent::FileTransfer(FileTransferIntent { file_name, file_size, file_count }),
            ),
        }
    }

    /// The convenience link, exactly when convenience sharing is on and
    /// the descriptor holds both an identity and TCP coordinates.
    pub fn generate_link(&self) -> (r: Option<String>)
        ensures
            match r {
                Some(link) => {
                    &&& self.allow_convenience_share
                    &&& self.device_connection_info.device matches Some(d) && {
                        &&& self.device_connection_info.tcp matches Some(t)
                        &&& link@ == spec_link(self.request_id@, t@.hostname, t@.port, d@.id)
                    }
                },
                None => !self.allow_convenience_share || self.device_connection_info.device
                    is None || self.device_connection_info.tcp is None,
            },
    {
        if !self.allow_convenience_share {
            return None;
        }
        let device = match &self.device_connection_info.device {
            Some(d) => d,
            None => {
                return None;
            },
        };
        let tcp = match &self.device_connection_info.tcp {
            Some(t) => t,
            None => {
                return None;
            },
        };
        let mut link = String::from_str("https://s.intershare.app?i=");
        link.append(self.request_id.as_str());
        link.append("&ip=");
        link.append(tcp.hostname.as_str());
        link.append("&p=");
        append_u64(&mut link, tcp.port as u64);
        link.append("&d=");
        link.append(device.id.as_str());
        proof {
            assert(link@ =~= spec_link(
                self.request_id@,
                tcp@.hostname,
                tcp@.port,
                device@.id,
            ));
        }
        Some(link)
    }
}

/// The convenience link text.
pub open spec fn spec_link(
    request_id: Seq<char>,
    ip: Seq<char>,
    port: u32,
    device_id: Seq<char>,
) -> Seq<char> {
    "https://s.intershare.app?i="@ + request_id + "&ip="@ + ip + "&p="@ + dec_digits(
        port as nat,
    ) + "&d="@ + device_id
}

// ---------------------------------------------------------------------
// What the observer sees, as a function of how the outside world went.
// ---------------------------------------------------------------------

/// How sending one clipboard payload ends.
pub enum TextSendOutcome {
    ConnectFailed,
    Sent,
}

/// The exact state sequence a text send reports: connect, then either
/// give up, or the cosmetic zero and four-fifths marks around the one
/// request, then done.
pub fn text_send_states(outcome: TextSendOutcome) -> (r: Vec<SendProgressState>)
    ensures
        match outcome {
            TextSendOutcome::ConnectFailed => r@.len() == 2 && (r@[0] is Connecting) && (r@[1]
                is Unknown),
            TextSendOutcome::Sent => {
                &&& r@.len() == 4
                &&& r@[0] is Connecting
                &&& r@[1] matches SendProgressState::Transferring { permille } && permille == 0
                &&& r@[2] matches SendProgressState::Transferring { permille } && permille == 800
                &&& r@[3] is Finished
            },
        },
{
    let mut r: Vec<SendProgressState> = Vec::new();
    r.push(SendProgressState::Connecting);
    match outcome {
        TextSendOutcome::ConnectFailed => {
            r.push(SendProgressState::Unknown);
        },
        TextSendOutcome::Sent => {
            r.push(SendProgressState::Transferring { permille: 0 });
            r.push(SendProgressState::Transferring { permille: 800 });
            r.push(SendProgressState::Finished);
        },
    }
    r
}

/// How sending files ends.
pub enum FileSendOutcome {
    ConnectFailed,
    NoResponse,
    Declined,
    StreamFailed,
    Sent,
}

/// The exact state sequence a file send reports: connect, request,
/// then the receiver's verdict and the stream's fate.
pub fn file_send_states(outcome: FileSendOutcome) -> (r: Vec<SendProgressState>)
    ensures
        match outcome {
            FileSendOutcome::ConnectFailed => r@.len() == 2 && (r@[0] is Connecting) && (r@[1]
                is Unknown),
            FileSendOutcome::NoResponse => r@.len() == 2 && (r@[0] is Connecting) && (r@[1]
                is Requesting),
            FileSendOutcome::Declined => r@.len() == 3 && (r@[0] is Connecting) && (r@[1]
                is Requesting) && (r@[2] is Declined),
            FileSendOutcome::StreamFailed => {
                &&& r@.len() == 5
                &&& r@[0] is Connecting
                &&& r@[1] is Requesting
                &&& r@[2] matches SendProgressState::Transferring { permille } && permille == 0
                &&& r@[3] is Cancelled
                &&& r@[4] is Finished
            },
            FileSendOutcome::Sent => {
                &&& r@.len() == 4
                &&& r@[0] is Connecting
                &&& r@[1] is Requesting
                &&& r@[2] matches SendProgressState::Transferring { permille } && permille == 0
                &&& r@[3] is Finished
            },
        },
{
    let mut r: Vec<SendProgressState> = Vec::new();
    r.push(SendProgressState::Connecting);
    match outcome {
        FileSendOutcome::ConnectFailed => {
            r.push(SendProgressState::Unknown);
        },
        FileSendOutcome::NoResponse => {
            r.push(SendProgressState::Requesting);
        },
        FileSendOutcome::Declined => {
            r.push(SendProgressState::Requesting);
            r.push(SendProgressState::Declined);
        },
        FileSendOutcome::StreamFailed => {
            r.push(SendProgressState::Requesting);
            r.push(SendProgressState::Transferring { permille: 0 });
            r.push(SendProgressState::Cancelled);
            r.push(SendProgressState::Finished);
        },
        FileSendOutcome::Sent => {
            r.push(SendProgressState::Requesting);
            r.push(SendProgressState::Transferring { permille: 0 });
            r.push(SendProgressState::Finished);
        },
    }
    r
}

/// The error a file send surfaces for each outcome, and success only
/// when the receiver accepted; a declined transfer is `Declined`.
pub fn file_send_result(outcome: FileSendOutcome, recv_error: String) -> (r: Result<
    (),
    crate::errors::ConnectErrors,
>)
    ensures
        match outcome {
            FileSendOutcome::Declined => r matches Err(e) && e is Declined,
            FileSendOutcome::NoResponse => r matches Err(e) && (
            e is FailedToGetTransferRequestResponse),
            FileSendOutcome::ConnectFailed => r is Err,
            FileSendOutcome::StreamFailed => r is Ok,
            FileSendOutcome::Sent => r is Ok,
        },
{
    match outcome {
        FileSendOutcome::ConnectFailed => Err(
            crate::errors::ConnectErrors::FailedToOpenTcpStream { error: recv_error },
        ),
        FileSendOutcome::NoResponse => Err(
            crate::errors::ConnectErrors::FailedToGetTransferRequestResponse {
                error: recv_error,
            },
        ),
        FileSendOutcome::Declined => Err(crate::errors::ConnectErrors::Declined),
        FileSendOutcome::StreamFailed => Ok(()),
        FileSendOutcome::Sent => Ok(()),
    }
}

} // verus!
