//! The records exchanged on an encrypted channel: the first `Request`,
//! and the receiver's `TransferRequestResponse`.

use vstd::prelude::*;
use crate::device::{Device, DeviceView};

verus! {

/// What a connection wants: push a share, or pull a convenience download.
#[derive(PartialEq, Eq, Structural, Clone, Copy, Debug)]
pub enum RequestTypes {
    ShareRequest,
    ConvenienceDownloadRequest,
}

/// Announcement of a file transfer: name of the single file (absent when
/// several are sent), total byte count, and number of files.
pub struct FileTransferIntent {
    pub file_name: Option<String>,
    pub file_size: u64,
    pub file_count: u64,
}

/// A clipboard payload travels inside the request itself.
pub struct ClipboardTransferIntent {
    pub clipboard_content: String,
}

/// The tagged payload of a share request.
pub enum Intent {
    FileTransfer(FileTransferIntent),
    Clipboard(ClipboardTransferIntent),
}

/// The first record on an encrypted channel after the handshake.
pub struct Request {
    pub request_type: RequestTypes,
    pub device: Option<Device>,
    pub share_id: Option<String>,
    pub intent: Option<Intent>,
}

/// The receiver's verdict on a file-transfer request.
pub struct TransferRequestResponse {
    pub accepted: bool,
}

pub struct FileTransferIntentView {
    pub file_name: Option<Seq<char>>,
    pub file_size: u64,
    pub file_count: u64,
}

pub enum IntentView {
    FileTransfer(FileTransferIntentView),
    Clipboard(Seq<char>),
}

pub struct RequestView {
    pub request_type: RequestTypes,
    pub device: Option<DeviceView>,
    pub share_id: Option<Seq<char>>,
    pub intent: Option<IntentView>,
}

impl View for FileTransferIntent {
    type V = FileTransferIntentView;

    open spec fn view(&self) -> FileTransferIntentView {
        FileTransferIntentView {
            file_name: match self.file_name {
                Some(n) => Some(n@),
                None => None,
            },
            file_size: self.file_size,
            file_count: self.file_count,
        }
    }
}

impl View for ClipboardTransferIntent {
    type V = Seq<char>;

    open spec fn view(&self) -> Seq<char> {
        self.clipboard_content@
    }
}

impl View for Intent {
    type V = IntentView;

    open spec fn view(&self) -> IntentView {
        match self {
            Intent::FileTransfer(f) => IntentView::FileTransfer(f@),
            Intent::Clipboard(c) => IntentView::Clipboard(c@),
        }
    }
}

impl View for Request {
    type V = RequestView;

    open spec fn view(&self) -> RequestView {
        RequestView {
            request_type: self.request_type,
            device: match self.device {
                Some(d) => Some(d@),
                None => None,
            },
            share_id: match self.share_id {
                Some(s) => Some(s@),
                None => None,
            },
            intent: match self.intent {
                Some(i) => Some(i@),
                None => None,
            },
        }
    }
}

impl View for TransferRequestResponse {
    type V = bool;

    open spec fn view(&self) -> bool {
        self.accepted
    }
}

impl Clone for FileTransferIntent {
    fn clone(&self) -> (r: Self)
        ensures
            r@ == self@,
    {
        FileTransferIntent {
            file_name: match &self.file_name {
                Some(n) => Some(n.clone()),
                None => None,
            },
            file_size: self.file_size,
            file_count: self.file_count,
        }
    }
}

impl Clone for ClipboardTransferIntent {
    fn clone(&self) -> (r: Self)
        ensures
            r@ == self@,
    {
        ClipboardTransferIntent { clipboard_content: self.clipboard_content.clone() }
    }
}

impl Clone for Intent {
    fn clone(&self) -> (r: Self)
        ensures
            r@ == self@,
    {
        match self {
            Intent::FileTransfer(f) => Intent::FileTransfer(f.clone()),
            Intent::Clipboard(c) => Intent::Clipboard(c.clone()),
        }
    }
}

impl Clone for Request {
    fn clone(&self) -> (r: Self)
        ensures
            r@ == self@,
    {
        Request {
            request_type: self.request_type,
            device: match &self.device {
                Some(d) => Some(d.clone()),
                None => None,
            },
            share_id: match &self.share_id {
                Some(s) => Some(s.clone()),
                None => None,
            },
            intent: match &self.intent {
                Some(i) => Some(i.clone()),
                None => None,
            },
        }
    }
}

} // verus!
