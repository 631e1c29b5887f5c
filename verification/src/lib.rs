//! Device model for a neutral-atom ("tweezer") quantum-computing platform.
//!
//! A device is a set of named layouts; each layout records which native gates
//! are available on which physical trap sites ("tweezers"), with what timing,
//! which atom moves between sites are allowed, and an optional row geometry.
//! A separate map assigns logical qubits to sites. Gate times are carried as
//! opaque 64-bit payloads (callers usually store the bit pattern of a
//! floating-point duration); the model itself never interprets them.

pub mod device;
pub mod error;
pub mod first_device;
pub mod gates;
pub mod laws;
pub mod layout;
pub mod mapping;
pub mod pragmas;
pub mod strutil;

pub use device::ExperimentalDevice;
pub use device::TweezerDevice;
pub use device::TweezerMutableDevice;
pub use error::QRydError;
pub use first_device::FirstDevice;
pub use first_device::LayoutGrid;
pub use first_device::QRydDevice;
pub use gates::MultiQubitGate;
pub use gates::SingleQubitGate;
pub use gates::ThreeQubitGate;
pub use gates::TwoQubitGate;
pub use layout::TweezerLayoutInfo;
pub use pragmas::PragmaChangeQRydLayout;
pub use pragmas::PragmaShiftQRydQubit;
pub use pragmas::PragmaShiftQubitsTweezers;
pub use pragmas::PragmaSwitchDeviceLayout;
