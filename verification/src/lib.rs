//! Recovery utilities for embedded firmware: a tracker that turns a run of
//! consecutive peripheral-initialisation failures into a re-initialisation
//! request, and the decision logic of the USB OTG FS PHY reset sequence.

pub mod recovery;
pub mod usb_phy;

pub use recovery::InitRecoveryTracker;
