use vstd::prelude::*;

verus! {

/// Error taxonomy of the codec and session layer.
///
/// Every fallible operation of this crate reports one of these; none is
/// retried or swallowed internally.
#[derive(Debug, Clone, Copy, PartialEq, Eq, Structural)]
pub enum CodecError {
    /// Fewer bytes remained in a payload than a field required.
    TruncatedBuffer,
    /// The leading character of a line did not match the decoder invoked.
    UnexpectedMessageTag,
    /// A metadata message spans multiple wire chunks, which is unsupported.
    UnsupportedChunking,
    /// A pairing announcement carried a device type other than a heater
    /// thermostat.
    UnsupportedDeviceType,
    /// An operation targeted a device kind that does not support it.
    UnsupportedDeviceKind,
    /// A payload was below its minimum length or otherwise structurally
    /// invalid.
    MalformedMessage,
    /// No inventory entry matches the requested radio address.
    DeviceNotFound,
    /// The stream ended before the terminal status message of the handshake.
    HandshakeIncomplete,
    /// The gateway answered a command with a non-zero or unreadable
    /// acknowledgement code.
    CommandRejected,
}

} // verus!
