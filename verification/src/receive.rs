//! The receiver-side handle for one inbound request: what it carries,
//! and its exactly-once accept/decline disposition.

use vstd::prelude::*;
use crate::device::Device;
use crate::messages::{
    Request, Intent, IntentView, FileTransferIntent, ClipboardTransferIntent,
    TransferRequestResponse,
};
use crate::bridge::{link_regex_is_match, matches_link_pattern};

verus! {

/// What kind of payload an inbound request announces.
#[derive(PartialEq, Eq, Structural, Clone, Copy, Debug)]
pub enum ConnectionIntentType {
    FileTransfer,
    Clipboard,
}

/// What a receiver's observer sees; receive progress is in
/// thousandths.
pub enum ReceiveProgressState {
    Unknown,
    Handshake,
    Receiving { permille: u32 },
    Extracting,
    Cancelled,
    Finished,
}

/// Implemented by the application to watch an inbound transfer.
pub trait ReceiveProgressDelegate {
    fn progress_changed(&self, progress: ReceiveProgressState);
}

/// Where a request stands: accept and decline are mutually exclusive
/// and happen at most once.
#[derive(PartialEq, Eq, Structural, Clone, Copy, Debug)]
pub enum Disposition {
    Undecided,
    Accepted,
    Declined,
}

/// What the driver must do after a disposition: just close the stream,
/// or send the verdict and then stream the archive into the
/// destination.
pub enum AcceptPlan {
    CloseOnly,
    ReceiveArchive { response: TransferRequestResponse, destination: String },
}

/// One accepted-but-undecided inbound request.
pub struct ConnectionRequest {
    pub transfer_request: Request,
    pub file_storage: String,
    pub should_cancel: bool,
    pub disposition: Disposition,
}

impl ConnectionRequest {
    pub fn new(transfer_request: Request, file_storage: String) -> (r: Self)
        ensures
            r.transfer_request == transfer_request,
            r.file_storage == file_storage,
            !r.should_cancel,
            r.disposition is Undecided,
    {
        ConnectionRequest {
            transfer_request,
            file_storage,
            should_cancel: false,
            disposition: Disposition::Undecided,
        }
    }

    /// The announced intent.
    pub fn get_intent(&self) -> (r: Intent)
        requires
            self.transfer_request.intent is Some,
        ensures
            Some(r@) == crate::wire::opt_intent_view(self.transfer_request.intent),
    {
        match &self.transfer_request.intent {
            Some(i) => i.clone(),
            None => unreached(),
        }
    }

    /// The peer that sent the request.
    pub fn get_sender(&self) -> (r: Device)
        requires
            self.transfer_request.device is Some,
        ensures
            Some(r@) == crate::wire::opt_device_view(self.transfer_request.device),
    {
        match &self.transfer_request.device {
            Some(d) => d.clone(),
            None => unreached(),
        }
    }

    /// Files or clipboard.
    pub fn get_intent_type(&self) -> (r: ConnectionIntentType)
        requires
            self.transfer_request.intent is Some,
        ensures
            (r is FileTransfer) == (self.transfer_request.intent matches Some(
                Intent::FileTransfer(_),
            )),
            (r is Clipboard) == (self.transfer_request.intent matches Some(Intent::Clipboard(_))),
    {
        match &self.transfer_request.intent {
            Some(Intent::FileTransfer(_)) => ConnectionIntentType::FileTransfer,
            Some(Intent::Clipboard(_)) => ConnectionIntentType::Clipboard,
            None => unreached(),
        }
    }

    /// The file-transfer announcement, when that is what was sent.
    pub fn get_file_transfer_intent(&self) -> (r: Option<FileTransferIntent>)
        requires
            self.transfer_request.intent is Some,
        ensures
            match r {
                Some(f) => self.transfer_request.intent matches Some(Intent::FileTransfer(g))
                    && g@ == f@,
                None => self.transfer_request.intent matches Some(Intent::Clipboard(_)),
            },
    {
        match &self.transfer_request.intent {
            Some(Intent::FileTransfer(f)) => Some(f.clone()),
            _ => None,
        }
    }

    /// The clipboard payload, when that is what was sent.
    pub fn get_clipboard_intent(&self) -> (r: Option<ClipboardTransferIntent>)
        requires
            self.transfer_request.intent is Some,
        ensures
            match r {
                Some(c) => self.transfer_request.intent matches Some(Intent::Clipboard(d)) && d@
                    == c@,
                None => self.transfer_request.intent matches Some(Intent::FileTransfer(_)),
            },
    {
        match &self.transfer_request.intent {
            Some(Intent::Clipboard(c)) => Some(c.clone()),
            _ => None,
        }
    }

    /// Whether a clipboard payload looks like a web link.
    pub fn is_link(&self) -> (r: bool)
        requires
            self.transfer_request.intent is Some,
        ensures
            r == (self.transfer_request.intent matches Some(Intent::Clipboard(c))
                && matches_link_pattern(c@)),
    {
        match &self.transfer_request.intent {
            Some(Intent::Clipboard(c)) => link_regex_is_match(c.clipboard_content.as_str()),
            _ => false,
        }
    }

    /// Set the shared cancel flag; the archive consumer polls it at
    /// every entry.
    pub fn cancel(&mut self)
        ensures
            final(self).should_cancel,
            final(self).transfer_request == old(self).transfer_request,
            final(self).file_storage == old(self).file_storage,
            final(self).disposition == old(self).disposition,
    {
        self.should_cancel = true;
    }

    /// Turn the request down: for a file intent the driver sends a
    /// rejecting response first; either way it closes the stream.
    pub fn decline(&mut self) -> (r: Option<TransferRequestResponse>)
        requires
            old(self).disposition is Undecided,
            old(self).transfer_request.intent is Some,
        ensures
            final(self).disposition is Declined,
            final(self).transfer_request == old(self).transfer_request,
            final(self).file_storage == old(self).file_storage,
            final(self).should_cancel == old(self).should_cancel,
            match r {
                Some(resp) => !resp.accepted && old(self).transfer_request.intent matches Some(
                    Intent::FileTransfer(_),
                ),
                None => old(self).transfer_request.intent matches Some(Intent::Clipboard(_)),
            },
    {
        self.disposition = Disposition::Declined;
        match &self.transfer_request.intent {
            Some(Intent::FileTransfer(_)) => Some(TransferRequestResponse { accepted: false }),
            _ => None,
        }
    }

    /// Take the request: a clipboard payload needs only the close; a
    /// file payload gets an accepting response and then the archive,
    /// extracted into this request's destination.
    pub fn accept(&mut self) -> (r: AcceptPlan)
        requires
            old(self).disposition is Undecided,
            old(self).transfer_request.intent is Some,
        ensures
            final(self).disposition is Accepted,
            final(self).transfer_request == old(self).transfer_request,
            final(self).file_storage == old(self).file_storage,
            final(self).should_cancel == old(self).should_cancel,
            match r {
                AcceptPlan::CloseOnly => old(self).transfer_request.intent matches Some(
                    Intent::Clipboard(_),
                ),
                AcceptPlan::ReceiveArchive { response, destination } => {
                    &&& response.accepted
                    &&& destination == old(self).file_storage
                    &&& old(self).transfer_request.intent matches Some(Intent::FileTransfer(_))
                },
            },
    {
        self.disposition = Disposition::Accepted;
        match &self.transfer_request.intent {
            Some(Intent::FileTransfer(_)) => AcceptPlan::ReceiveArchive {
                response: TransferRequestResponse { accepted: true },
                destination: self.file_storage.clone(),
            },
            _ => AcceptPlan::CloseOnly,
        }
    }
}

/// How the archive phase of an accepted file request ends.
#[derive(PartialEq, Eq, Structural, Clone, Copy, Debug)]
pub enum FileReceiveOutcome {
    Restored,
    Failed,
}

/// The states the receiver's observer sees around the archive phase of
/// an accepted file request: `Handshake` before the verdict is sent,
/// and — after the per-block `Receiving` updates the driver emits in
/// between — `Finished` on success, `Cancelled` on an error or a
/// cancelled stream.
pub fn file_receive_states(outcome: FileReceiveOutcome) -> (r: Vec<ReceiveProgressState>)
    ensures
        r@.len() == 2,
        r@[0] is Handshake,
        (outcome is Restored) ==> (r@[1] is Finished),
        (outcome is Failed) ==> (r@[1] is Cancelled),
{
    let mut r: Vec<ReceiveProgressState> = Vec::new();
    r.push(ReceiveProgressState::Handshake);
    match outcome {
        FileReceiveOutcome::Restored => r.push(ReceiveProgressState::Finished),
        FileReceiveOutcome::Failed => r.push(ReceiveProgressState::Cancelled),
    }
    r
}

/// What an accepted file request hands back once the archive phase
/// ends: the restored paths on success, the empty list on an error or
/// a cancelled stream (partial output stays on disk, but is not
/// reported).
pub fn receive_result(outcome: FileReceiveOutcome, restored: Vec<String>) -> (r: Vec<String>)
    ensures
        (outcome is Restored) ==> r == restored,
        (outcome is Failed) ==> r@.len() == 0,
{
    match outcome {
        FileReceiveOutcome::Restored => restored,
        FileReceiveOutcome::Failed => Vec::new(),
    }
}

} // verus!
