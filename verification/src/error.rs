//! Error kinds for device operations.
//!
//! Every fallible operation of the device model reports one of these kinds;
//! no operation panics on caller-supplied input. The kinds are deliberately
//! payload-free so that callers can compare them structurally; a
//! human-readable message is available through [`QRydError::msg`].

use vstd::prelude::*;

verus! {

/// The error kinds that device operations can report.
#[derive(Clone, Copy, Debug, PartialEq, Eq, Structural)]
pub enum QRydError {
    /// A gate name outside the native whitelist for the requested arity.
    UnknownGate,
    /// The referenced layout name is absent from the registry.
    UnknownLayout,
    /// A layout with this name is already present.
    DuplicateLayout,
    /// No layout name was given and no current layout is set.
    NoLayoutSet,
    /// A referenced tweezer site has no registered gate-time data.
    SiteNotFound,
    /// A referenced qubit has no site mapping.
    QubitNotFound,
    /// The destination site is already occupied by another active qubit.
    SiteOccupied,
    /// A shift is self-referential, unreachable, or blocked by an occupied site.
    InvalidShift,
    /// The row partitions of the current and the target layout differ.
    RowPartitionMismatch,
    /// The current or the target layout has no row partition recorded.
    RowPartitionMissing,
    /// A grid or row-count constraint of the device was violated.
    DimensionMismatch,
    /// A serialized operation payload is malformed.
    SerializationError,
    /// The reconfiguration operation name is not recognized.
    UnsupportedOperation,
}

impl QRydError {
    /// The fixed message text of each error kind.
    pub open spec fn spec_msg(self) -> Seq<char> {
        match self {
            QRydError::UnknownGate => "This gate is not supported by the device."@,
            QRydError::UnknownLayout => "The layout is not present in the device layout register."@,
            QRydError::DuplicateLayout => "A layout with this name is already present."@,
            QRydError::NoLayoutSet => "No layout name provided and no current layout set."@,
            QRydError::SiteNotFound => "A given tweezer is not present in the device tweezer data."@,
            QRydError::QubitNotFound => "The given qubit is not present in the layout."@,
            QRydError::SiteOccupied => "The target tweezer is already occupied by a qubit."@,
            QRydError::InvalidShift => "The shift is not allowed on this device."@,
            QRydError::RowPartitionMismatch => "The tweezers per row of the current and the new layout differ."@,
            QRydError::RowPartitionMissing => "Tweezers per row info missing from current or new layout."@,
            QRydError::DimensionMismatch => "The given data does not fit the dimensions of the device."@,
            QRydError::SerializationError => "The operation payload could not be deserialized."@,
            QRydError::UnsupportedOperation => "Wrapped operation not supported in this device."@,
        }
    }

    /// A human-readable message for surfacing the error to the end caller.
    pub fn msg(&self) -> (r: String)
        ensures
            r@ == self.spec_msg(),
    {
        match self {
            QRydError::UnknownGate => "This gate is not supported by the device.".to_owned(),
            QRydError::UnknownLayout => "The layout is not present in the device layout register.".to_owned(),
            QRydError::DuplicateLayout => "A layout with this name is already present.".to_owned(),
            QRydError::NoLayoutSet => "No layout name provided and no current layout set.".to_owned(),
            QRydError::SiteNotFound => "A given tweezer is not present in the device tweezer data.".to_owned(),
            QRydError::QubitNotFound => "The given qubit is not present in the layout.".to_owned(),
            QRydError::SiteOccupied => "The target tweezer is already occupied by a qubit.".to_owned(),
            QRydError::InvalidShift => "The shift is not allowed on this device.".to_owned(),
            QRydError::RowPartitionMismatch => "The tweezers per row of the current and the new layout differ.".to_owned(),
            QRydError::RowPartitionMissing => "Tweezers per row info missing from current or new layout.".to_owned(),
            QRydError::DimensionMismatch => "The given data does not fit the dimensions of the device.".to_owned(),
            QRydError::SerializationError => "The operation payload could not be deserialized.".to_owned(),
            QRydError::UnsupportedOperation => "Wrapped operation not supported in this device.".to_owned(),
        }
    }
}

} // verus!
