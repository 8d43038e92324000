use vstd::prelude::*;

verus! {

/// How a finger is presented to the sensor.
#[derive(Clone, Copy, Debug, PartialEq, Eq, Structural)]
pub enum ScanType {
    Press,
    Swipe,
}

/// The operation that a scan session performs.
#[derive(Clone, Copy, Debug, PartialEq, Eq, Structural)]
pub enum OperationKind {
    Enroll,
    Capture,
    Identify,
    Verify,
}

/// What a device can do. Identify and Verify both rest on the matching
/// capability; Capture needs both the capture capability and an image sensor.
#[derive(Clone, Copy, Debug, PartialEq, Eq, Structural)]
pub struct Capabilities {
    pub enroll: bool,
    pub identify: bool,
    pub capture: bool,
    pub image: bool,
    pub scan_type: ScanType,
}

impl Capabilities {
    pub open spec fn spec_supports(self, kind: OperationKind) -> bool {
        match kind {
            OperationKind::Enroll => self.enroll,
            OperationKind::Capture => self.capture && self.image,
            OperationKind::Identify => self.identify,
            OperationKind::Verify => self.identify,
        }
    }

    /// Whether an operation of `kind` may be started on a device with these
    /// capabilities.
    pub fn supports(&self, kind: OperationKind) -> (r: bool)
        ensures
            r == self.spec_supports(kind),
    {
        match kind {
            OperationKind::Enroll => self.enroll,
            OperationKind::Capture => self.capture && self.image,
            OperationKind::Identify => self.identify,
            OperationKind::Verify => self.identify,
        }
    }
}

/// The open state of a device.
#[derive(Clone, Copy, Debug, PartialEq, Eq, Structural)]
pub enum OpenState {
    Closed,
    Opening,
    Open,
    Closing,
}

/// A device as the hardware bus reports it during enumeration.
#[derive(Debug)]
pub struct DeviceInfo {
    pub id: String,
    pub name: String,
    pub capabilities: Capabilities,
}

/// One scanner known to the registry: its identity, its capabilities, its
/// open state and the session that holds it, if any.
#[derive(Debug)]
pub struct FpDevice {
    pub id: String,
    pub name: String,
    pub caps: Capabilities,
    pub state: OpenState,
    pub active: Option<usize>,
}

impl FpDevice {
    /// The stable id of the device.
    pub fn id(&self) -> (r: &String)
        ensures
            r@ == self.id@,
    {
        &self.id
    }

    /// The human-readable name of the device.
    pub fn name(&self) -> (r: &String)
        ensures
            r@ == self.name@,
    {
        &self.name
    }

    /// The capability set of the device.
    pub fn capabilities(&self) -> (r: Capabilities)
        ensures
            r == self.caps,
    {
        self.caps
    }

    /// The open state of the device.
    pub fn state(&self) -> (r: OpenState)
        ensures
            r == self.state,
    {
        self.state
    }

    /// The id of the session that holds the device, if any.
    pub fn active_session(&self) -> (r: Option<usize>)
        ensures
            r == self.active,
    {
        self.active
    }
}

} // verus!
