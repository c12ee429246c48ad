//! The error taxonomy of the transfer engine.

use vstd::prelude::*;

verus! {

/// Ways a dial, handshake, or send can fail, surfaced to the caller of
/// a send; none of them mutates the discovery registry.
#[derive(Debug)]
pub enum ConnectErrors {
    FailedToGetConnectionDetails,
    FailedToGetTcpDetails,
    FailedToGetSocketAddress,
    FailedToOpenTcpStream { error: String },
    FailedToGetBleDetails,
    InternalBleHandlerNotAvailable,
    FailedToEstablishBleConnection,
    FailedToEncryptStream { error: String },
    FailedToGetTransferRequestResponse { error: String },
    Declined,
    NoTextProvided,
    NoFilesProvided,
}

/// Failure to bring the discovery plane up.
#[derive(Debug)]
pub enum DiscoverySetupError {
    UnableToSetupBluetooth,
}

/// Failure to follow a convenience link.
#[derive(Debug)]
pub enum RequestConvenienceShareErrors {
    NotAValidLink,
    FailedToConnect { error: String },
}

/// Failure to start the TCP listener.
#[derive(Debug)]
pub enum TransmissionSetupError {
    UnableToStartTcpServer { error: String },
}

} // verus!
