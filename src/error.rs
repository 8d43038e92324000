use vstd::prelude::*;

verus! {

/// Every failure that the device, registry and session layer can report.
#[derive(Clone, Copy, Debug, PartialEq, Eq, Structural)]
pub enum FpError {
    /// The id names no device of the latest enumeration.
    DeviceNotFound,
    /// The device is opening, open or closing already.
    AlreadyOpen,
    /// The device is not open.
    NotOpen,
    /// A session is already running or cancelling on the device.
    DeviceBusy,
    /// The device lacks the capability that the operation needs.
    UnsupportedOperation,
    /// The device was removed or stopped answering.
    HardwareUnavailable,
    /// The operation was cancelled before the hardware gave a result.
    Cancelled,
    /// The hardware delivered data that does not fit the operation.
    ProtocolError,
    /// The caller's time limit for the operation ran out.
    Timeout,
    /// The session was started once already.
    AlreadyStarted,
}

} // verus!
