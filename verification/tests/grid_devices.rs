//! Tests for the grid-based device and the payload decoders, including their
//! compatibility with the common fixed-width little-endian wire format.

use qryd_devices::pragmas::PragmaChangeQRydLayout;
use qryd_devices::pragmas::PragmaShiftQRydQubit;
use qryd_devices::pragmas::PragmaShiftQubitsTweezers;
use qryd_devices::pragmas::PragmaSwitchDeviceLayout;
use qryd_devices::FirstDevice;
use qryd_devices::LayoutGrid;
use qryd_devices::QRydDevice;
use qryd_devices::QRydError;

fn bits(x: f64) -> u64 {
    x.to_bits()
}

fn grid(rows: usize, columns: usize, fill: f64) -> LayoutGrid {
    LayoutGrid { rows, columns, values: vec![bits(fill); rows * columns] }
}

fn small_device() -> FirstDevice {
    FirstDevice::new(
        2,
        2,
        &[1, 1],
        bits(1.0),
        grid(2, 2, 0.0),
        None,
        None,
        None,
        None,
    )
    .unwrap()
}

#[test]
fn first_device_new_validation() {
    // One count per row is required.
    let wrong_rows = FirstDevice::new(
        2,
        2,
        &[1],
        bits(1.0),
        grid(2, 2, 0.0),
        None,
        None,
        None,
        None,
    );
    assert_eq!(wrong_rows.unwrap_err(), QRydError::DimensionMismatch);

    // No row may hold more qubits than there are columns.
    let too_many = FirstDevice::new(
        2,
        2,
        &[3, 1],
        bits(1.0),
        grid(2, 2, 0.0),
        None,
        None,
        None,
        None,
    );
    assert_eq!(too_many.unwrap_err(), QRydError::DimensionMismatch);

    // The initial layout must match the grid dimensions.
    let wrong_grid = FirstDevice::new(
        2,
        2,
        &[1, 1],
        bits(1.0),
        grid(3, 2, 0.0),
        None,
        None,
        None,
        None,
    );
    assert_eq!(wrong_grid.unwrap_err(), QRydError::DimensionMismatch);

    let device = small_device();
    assert_eq!(device.number_rows(), 2);
    assert_eq!(device.number_columns(), 2);
    assert_eq!(device.number_qubits(), 2);
    // Consecutive numbering: qubit 0 in row 0, qubit 1 in row 1.
    assert_eq!(device.qubit_positions(), &vec![(0, (0, 0)), (1, (1, 0))]);
    // The initial cutoff is the unit distance.
    assert_eq!(device.cutoff, bits(1.0));
}

#[test]
fn first_device_layouts() {
    let device = small_device();
    let added = device.add_layout(1, grid(2, 2, 0.5)).unwrap();
    assert!(added.add_layout(1, grid(2, 2, 0.7)).is_err());
    assert_eq!(
        added.add_layout(1, grid(2, 2, 0.7)).unwrap_err(),
        QRydError::DuplicateLayout
    );
    assert!(added.add_layout(2, grid(1, 1, 0.7)).is_err());

    let mut added = added;
    assert!(added.switch_layout(&7).is_err());
    assert_eq!(added.switch_layout(&7).unwrap_err(), QRydError::UnknownLayout);
    assert!(added.switch_layout(&1).is_ok());
    assert_eq!(added.current_layout, 1);
}

#[test]
fn first_device_change_positions() {
    let mut device = small_device();

    // A qubit must keep its row.
    let wrong_row = device.change_qubit_positions(&vec![(0, (1, 0)), (1, (1, 1))]);
    assert_eq!(wrong_row.unwrap_err(), QRydError::DimensionMismatch);

    // Every qubit must be named.
    let missing = device.change_qubit_positions(&vec![(0, (0, 1))]);
    assert_eq!(missing.unwrap_err(), QRydError::QubitNotFound);

    // No foreign qubits may be named.
    let extra = device.change_qubit_positions(&vec![(0, (0, 1)), (1, (1, 0)), (9, (0, 0))]);
    assert_eq!(extra.unwrap_err(), QRydError::QubitNotFound);

    assert!(device
        .change_qubit_positions(&vec![(0, (0, 1)), (1, (1, 1))])
        .is_ok());
    assert_eq!(device.qubit_positions(), &vec![(0, (0, 1)), (1, (1, 1))]);
}

#[test]
fn first_device_gate_times() {
    let device = small_device();
    assert_eq!(device.single_qubit_gate_time("RotateX", &0), Some(bits(1e-6)));
    assert_eq!(device.single_qubit_gate_time("PauliY", &1), Some(bits(1e-6)));
    assert!(device.single_qubit_gate_time("RotateX", &5).is_none());
    assert!(device.single_qubit_gate_time("Hadamard", &0).is_none());

    // The native multi-qubit gate needs all qubits in one row.
    let row_device = FirstDevice::new(
        1,
        3,
        &[3],
        bits(1.0),
        grid(1, 3, 0.0),
        None,
        None,
        None,
        None,
    )
    .unwrap();
    assert_eq!(
        row_device.multi_qubit_gate_time("MultiQubitZZ", &[0, 1, 2]),
        Some(bits(2e-5))
    );
    assert!(row_device.multi_qubit_gate_time("MultiQubitZZ", &[]).is_none());
    assert!(row_device.multi_qubit_gate_time("Other", &[0, 1]).is_none());
    let device = small_device();
    // Qubits 0 and 1 sit in different rows.
    assert!(device.multi_qubit_gate_time("MultiQubitZZ", &[0, 1]).is_none());
}

#[test]
fn first_device_change_device() {
    let mut device = small_device();
    let device2 = device.add_layout(1, grid(2, 2, 0.5)).unwrap();
    device = device2;

    let switch = bincode::serialize(&1u64).unwrap();
    assert!(device.change_device("PragmaChangeQRydLayout", &switch).is_ok());
    assert_eq!(device.current_layout, 1);

    let bad_switch = bincode::serialize(&9u64).unwrap();
    assert_eq!(
        device
            .change_device("PragmaChangeQRydLayout", &bad_switch)
            .unwrap_err(),
        QRydError::UnknownLayout
    );
    assert_eq!(device.current_layout, 1);

    let positions: std::collections::HashMap<u64, (u64, u64)> =
        [(0u64, (0u64, 1u64))].into_iter().collect();
    let shift = bincode::serialize(&positions).unwrap();
    // Qubit 1 is missing from the table.
    assert_eq!(
        device
            .change_device("PragmaShiftQRydQubit", &shift)
            .unwrap_err(),
        QRydError::QubitNotFound
    );

    assert_eq!(
        device.change_device("Unknown", &[]).unwrap_err(),
        QRydError::UnsupportedOperation
    );
    assert_eq!(
        device
            .change_device("PragmaChangeQRydLayout", &[1, 2])
            .unwrap_err(),
        QRydError::SerializationError
    );
}

#[test]
fn qryd_device_enum() {
    let mut device = QRydDevice::FirstDevice(small_device());
    assert_eq!(device.number_rows(), 2);
    assert_eq!(device.number_columns(), 2);
    assert_eq!(device.number_qubits(), 2);
    assert_eq!(device.qubit_positions(), &vec![(0, (0, 0)), (1, (1, 0))]);
    assert_eq!(device.single_qubit_gate_time("RotateZ", &0), Some(bits(1e-6)));

    let with_layout = device.add_layout(3, grid(2, 2, 0.25)).unwrap();
    let mut with_layout = with_layout;
    assert!(with_layout.switch_layout(&3).is_ok());
    assert!(with_layout
        .change_qubit_positions(&vec![(0, (0, 1)), (1, (1, 1))])
        .is_ok());
    assert!(device.change_device("Nope", &[]).is_err());
}

#[test]
fn pragma_payload_decoding() {
    // The decoders read the same fixed-width little-endian format that the
    // common binary serializer emits.
    let change = bincode::serialize(&5u64).unwrap();
    assert_eq!(
        PragmaChangeQRydLayout::from_bytes(&change).unwrap().new_layout(),
        5
    );
    assert!(PragmaChangeQRydLayout::from_bytes(&[0, 1]).is_none());

    let switch = bincode::serialize(&"triangle".to_string()).unwrap();
    assert_eq!(
        PragmaSwitchDeviceLayout::from_bytes(&switch)
            .unwrap()
            .new_layout(),
        "triangle"
    );
    assert!(PragmaSwitchDeviceLayout::from_bytes(&[9]).is_none());

    // Layout names beyond the seven-bit range decode too.
    let wide = bincode::serialize(&"drei\u{00eb}ck".to_string()).unwrap();
    assert_eq!(
        PragmaSwitchDeviceLayout::from_bytes(&wide).unwrap().new_layout(),
        "drei\u{00eb}ck"
    );
    // A truncated multi-byte sequence is rejected.
    let broken = &wide[..wide.len() - 1];
    assert!(PragmaSwitchDeviceLayout::from_bytes(broken).is_none());

    let shifts = bincode::serialize(&vec![(0u64, 1u64), (4u64, 2u64)]).unwrap();
    assert_eq!(
        PragmaShiftQubitsTweezers::from_bytes(&shifts).unwrap().shifts(),
        &vec![(0, 1), (4, 2)]
    );
    let truncated = &shifts[..shifts.len() - 1];
    assert!(PragmaShiftQubitsTweezers::from_bytes(truncated).is_none());

    let positions: std::collections::HashMap<u64, (u64, u64)> =
        [(3u64, (1u64, 2u64))].into_iter().collect();
    let moved = bincode::serialize(&positions).unwrap();
    assert_eq!(
        PragmaShiftQRydQubit::from_bytes(&moved).unwrap().new_positions(),
        &vec![(3, (1, 2))]
    );

    let built = PragmaShiftQubitsTweezers::new(vec![(1, 2)]);
    assert_eq!(built.shifts(), &vec![(1, 2)]);
    let built = PragmaSwitchDeviceLayout::new("x".to_string());
    assert_eq!(built.new_layout(), "x");
}

#[test]
fn pragma_payload_roundtrip() {
    // The library's writers emit the same bytes as the common binary
    // serializer, and the library's readers give back what was written.
    let change = PragmaChangeQRydLayout::new(7);
    let bytes = change.to_bytes();
    assert_eq!(bytes, bincode::serialize(&7u64).unwrap());
    assert_eq!(
        PragmaChangeQRydLayout::from_bytes(&bytes).unwrap().new_layout(),
        7
    );

    let shifts = PragmaShiftQubitsTweezers::new(vec![(0, 1), (4, 2)]);
    let bytes = shifts.to_bytes();
    assert_eq!(
        bytes,
        bincode::serialize(&vec![(0u64, 1u64), (4u64, 2u64)]).unwrap()
    );
    let back = PragmaShiftQubitsTweezers::from_bytes(&bytes).unwrap();
    assert_eq!(back.shifts(), shifts.shifts());

    let switch = PragmaSwitchDeviceLayout::new("triangle".to_string());
    let bytes = switch.to_bytes().unwrap();
    assert_eq!(bytes, bincode::serialize(&"triangle".to_string()).unwrap());
    assert_eq!(
        PragmaSwitchDeviceLayout::from_bytes(&bytes).unwrap().new_layout(),
        "triangle"
    );

    let moved = PragmaShiftQRydQubit::new(vec![(3, (1, 2))]);
    let bytes = moved.to_bytes();
    let positions: std::collections::HashMap<u64, (u64, u64)> =
        [(3u64, (1u64, 2u64))].into_iter().collect();
    assert_eq!(bytes, bincode::serialize(&positions).unwrap());
    let back = PragmaShiftQRydQubit::from_bytes(&bytes).unwrap();
    assert_eq!(back.new_positions(), moved.new_positions());
}
