//! Device discovery, exclusive open/close lifecycle and cancellable scan
//! sessions for fingerprint scanners, with every state transition stated and
//! proved.
pub mod context;
pub mod device;
pub mod error;
pub mod image;
pub mod session;

pub use context::FpContext;
pub use device::{Capabilities, DeviceInfo, FpDevice, OpenState, OperationKind, ScanType};
pub use error::FpError;
pub use image::FpImage;
pub use session::{
    HardwareEvent, MatchResult, ProgressChannel, ProgressEvent, ScanResult, ScanSession, SessionState,
};
