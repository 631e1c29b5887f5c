//! Scenario tests for the device-wide properties and the remaining surface.

use qryd_devices::device::CONTROLLED_GATE_TIME;
use qryd_devices::QRydError;
use qryd_devices::TweezerDevice;
use qryd_devices::TweezerMutableDevice;
use qryd_devices::ExperimentalDevice;

fn bits(x: f64) -> u64 {
    x.to_bits()
}

/// A minimal analytic phase relation mirror for exercising the phase-gated
/// controlled gates: the named default relation evaluated at an angle.
fn phase_of_relation(relation: &str, theta: f64) -> Option<f64> {
    match relation {
        "DefaultRelation" => Some(2.13146 * (theta / std::f64::consts::PI)),
        other => other.parse::<f64>().ok(),
    }
}

fn phase_matches(phi: f64, relation_phi: f64) -> bool {
    (relation_phi.abs() - phi.abs()).abs() < 0.0001
}

/// The example scenario: one layout, one recorded gate, trivial population.
#[test]
fn example_scenario() {
    let mut device = TweezerDevice::new(None, None, None);
    device.add_layout("triangle").unwrap();
    device
        .set_tweezer_single_qubit_gate_time("RotateX", 0, bits(0.23), Some("triangle".to_string()))
        .unwrap();
    device.switch_layout("triangle", Some(true)).unwrap();

    assert_eq!(device.number_qubits(), 1);
    assert_eq!(device.get_tweezer_from_qubit(&0).unwrap(), 0);
    assert_eq!(
        device.single_qubit_gate_time("RotateX", &0),
        Some(bits(0.23))
    );
    assert_eq!(device.single_qubit_gate_time("RotateY", &0), None);
}

/// Mapping injectivity: assigning a second qubit to an occupied tweezer is
/// rejected, and re-assigning the same qubit is an overwrite.
#[test]
fn mapping_stays_injective() {
    let mut device = TweezerDevice::new(None, None, None);
    device.add_layout("default").unwrap();
    device.current_layout = Some("default".to_string());
    device
        .set_tweezer_single_qubit_gate_time("RotateX", 0, bits(0.1), None)
        .unwrap();
    device
        .set_tweezer_single_qubit_gate_time("RotateX", 1, bits(0.1), None)
        .unwrap();

    device.add_qubit_tweezer_mapping(0, 0).unwrap();
    let occupied = device.add_qubit_tweezer_mapping(1, 0);
    assert_eq!(occupied.unwrap_err(), QRydError::SiteOccupied);

    // Overwriting the same qubit's assignment is allowed.
    assert!(device.add_qubit_tweezer_mapping(0, 1).is_ok());
    assert_eq!(device.get_tweezer_from_qubit(&0).unwrap(), 1);
    assert_eq!(device.number_qubits(), 1);
}

/// Layout isolation: a gate time recorded under one layout is invisible when
/// querying under another.
#[test]
fn layout_isolation_scenario() {
    let mut device = TweezerDevice::new(None, None, None);
    device.add_layout("A").unwrap();
    device.add_layout("B").unwrap();
    device.current_layout = Some("B".to_string());
    device
        .set_tweezer_single_qubit_gate_time("RotateX", 0, bits(0.5), Some("B".to_string()))
        .unwrap();
    device.add_qubit_tweezer_mapping(0, 0).unwrap();

    let before = device.single_qubit_gate_time("RotateX", &0);
    device
        .set_tweezer_single_qubit_gate_time("RotateX", 0, bits(0.9), Some("A".to_string()))
        .unwrap();
    // The record under "A" does not change what is visible under "B".
    assert_eq!(device.single_qubit_gate_time("RotateX", &0), before);
    assert_eq!(
        device
            .get_layout("A")
            .unwrap()
            .single_qubit_gate_time(qryd_devices::SingleQubitGate::RotateX, 0),
        Some(bits(0.9))
    );
}

/// The phase-gated controlled gates report a time exactly when the recorded
/// pair exists and the caller's phase comparison holds.
#[test]
fn controlled_gate_times() {
    let mut device = TweezerDevice::new(None, None, None);
    device.add_layout("default").unwrap();
    device.current_layout = Some("default".to_string());

    let relation_phi = phase_of_relation("DefaultRelation", std::f64::consts::PI).unwrap();
    let ok_phase = phase_matches(relation_phi, relation_phi);
    let bad_phase = phase_matches(relation_phi + 0.3, relation_phi);
    assert!(ok_phase);
    assert!(!bad_phase);

    assert!(device.gate_time_controlled_z(&0, &1, ok_phase).is_none());
    assert!(device
        .gate_time_controlled_phase(&0, &1, ok_phase)
        .is_none());

    device
        .set_tweezer_two_qubit_gate_time("PhaseShiftedControlledZ", 0, 1, bits(0.23), None)
        .unwrap();
    device
        .set_tweezer_two_qubit_gate_time("PhaseShiftedControlledPhase", 0, 1, bits(0.23), None)
        .unwrap();
    device.add_qubit_tweezer_mapping(0, 0).unwrap();
    device.add_qubit_tweezer_mapping(1, 1).unwrap();

    assert_eq!(
        device.gate_time_controlled_z(&0, &1, ok_phase),
        Some(CONTROLLED_GATE_TIME)
    );
    assert_eq!(CONTROLLED_GATE_TIME, bits(1e-6));
    assert!(device.gate_time_controlled_z(&0, &1, bad_phase).is_none());
    assert!(device.gate_time_controlled_z(&0, &7, ok_phase).is_none());
    assert_eq!(
        device.gate_time_controlled_phase(&0, &1, ok_phase),
        Some(CONTROLLED_GATE_TIME)
    );
    assert!(device
        .gate_time_controlled_phase(&0, &7, ok_phase)
        .is_none());

    // A numeric relation string is carried verbatim for the caller.
    let device_f = TweezerDevice::new(None, Some("2.13".to_string()), Some("2.15".to_string()));
    assert_eq!(
        phase_of_relation(&device_f.controlled_z_phase_relation, 0.0),
        Some(2.13)
    );
    assert_eq!(
        phase_of_relation(&device_f.controlled_phase_phase_relation, 0.0),
        Some(2.15)
    );
}

/// Qubit-space edges: pairs of assigned qubits whose sites carry a two-qubit
/// gate time in either orientation.
#[test]
fn two_qubit_edges_scenario() {
    let mut device = TweezerDevice::new(None, None, None);
    device.add_layout("default").unwrap();
    device.current_layout = Some("default".to_string());

    assert_eq!(device.two_qubit_edges().len(), 0);

    device
        .set_tweezer_two_qubit_gate_time("PhaseShiftedControlledZ", 0, 1, bits(0.1), None)
        .unwrap();
    device
        .set_tweezer_two_qubit_gate_time("PhaseShiftedControlledZ", 2, 0, bits(0.1), None)
        .unwrap();
    device.add_qubit_tweezer_mapping(0, 0).unwrap();
    device.add_qubit_tweezer_mapping(1, 1).unwrap();
    device.add_qubit_tweezer_mapping(2, 2).unwrap();

    // Qubit pairs ascend: the (2,0) record counts in both orientations.
    assert_eq!(device.two_qubit_edges(), vec![(0, 1), (0, 2)]);

    // Pairs are oriented by qubit number even when the assignment was built
    // in another order.
    let mut scrambled = TweezerDevice::new(None, None, None);
    scrambled.add_layout("default").unwrap();
    scrambled.current_layout = Some("default".to_string());
    scrambled
        .set_tweezer_two_qubit_gate_time("PhaseShiftedControlledZ", 0, 1, bits(0.1), None)
        .unwrap();
    scrambled.add_qubit_tweezer_mapping(3, 0).unwrap();
    scrambled.add_qubit_tweezer_mapping(0, 1).unwrap();
    assert_eq!(scrambled.two_qubit_edges(), vec![(0, 3)]);
}

/// The builder view is promoted one way into the runtime view.
#[test]
fn from_mutable_promotion() {
    let mut builder = TweezerMutableDevice::new(Some(7), None, None);
    builder.device.add_layout("triangle").unwrap();
    builder
        .device
        .set_tweezer_single_qubit_gate_time(
            "RotateX",
            0,
            bits(0.23),
            Some("triangle".to_string()),
        )
        .unwrap();
    builder.device.set_default_layout("triangle").unwrap();

    let device = TweezerDevice::from_mutable(builder);
    assert_eq!(device.seed(), Some(7));
    assert!(device
        .available_layouts()
        .contains(&"triangle".to_string()));
    assert_eq!(device.default_layout, Some("triangle".to_string()));
    assert_eq!(
        device.single_qubit_gate_time("RotateX", &0),
        Some(bits(0.23))
    );
}

/// The predecessor device starts with a layout named "Default" in force.
#[test]
fn experimental_device_basics() {
    let mut device = ExperimentalDevice::new();
    assert_eq!(device.device.current_layout, Some("Default".to_string()));

    assert!(device.add_layout("Default").is_err());
    assert!(device.add_layout("Other").is_ok());
    assert!(device.switch_layout("missing").is_err());
    assert!(device.switch_layout("Other").is_ok());
    assert!(device.switch_layout("Default").is_ok());

    assert!(device.add_qubit_tweezer_mapping(0, 0).is_err());
    device
        .set_tweezer_single_qubit_gate_time("PauliX", 0, bits(0.23), None)
        .unwrap();
    assert!(device.add_qubit_tweezer_mapping(0, 0).is_ok());
    assert_eq!(device.get_tweezer_from_qubit(&0).unwrap(), 0);
    assert!(device.get_tweezer_from_qubit(&3).is_err());
    assert_eq!(device.number_qubits(), 1);

    assert!(device
        .set_tweezer_two_qubit_gate_time("PhaseShiftedControlledZ", 0, 1, bits(0.1), None)
        .is_ok());
    assert!(device
        .set_tweezer_three_qubit_gate_time(
            "ControlledControlledPhaseShift",
            0,
            1,
            2,
            bits(0.1),
            None
        )
        .is_ok());
    assert!(device
        .set_tweezer_multi_qubit_gate_time("MultiQubitZZ", &[0, 1, 2], bits(0.1), None)
        .is_ok());
    assert!(device
        .set_tweezer_single_qubit_gate_time("NotAGate", 0, bits(0.1), None)
        .is_err());
}

/// Every error kind carries a fixed human-readable message.
#[test]
fn error_messages() {
    assert_eq!(
        QRydError::UnknownLayout.msg(),
        "The layout is not present in the device layout register."
    );
    assert_eq!(
        QRydError::NoLayoutSet.msg(),
        "No layout name provided and no current layout set."
    );
    assert_eq!(
        QRydError::QubitNotFound.msg(),
        "The given qubit is not present in the layout."
    );
    assert_eq!(
        QRydError::RowPartitionMissing.msg(),
        "Tweezers per row info missing from current or new layout."
    );
}

/// Setting a gate time overwrites the earlier record for the same key and
/// repeated identical calls change nothing observable.
#[test]
fn setting_overwrites() {
    let mut device = TweezerDevice::new(None, None, None);
    device.add_layout("default").unwrap();
    device.current_layout = Some("default".to_string());

    device
        .set_tweezer_single_qubit_gate_time("RotateX", 0, bits(0.1), None)
        .unwrap();
    device
        .set_tweezer_single_qubit_gate_time("RotateX", 0, bits(0.2), None)
        .unwrap();
    device.add_qubit_tweezer_mapping(0, 0).unwrap();
    assert_eq!(
        device.single_qubit_gate_time("RotateX", &0),
        Some(bits(0.2))
    );
    device
        .set_tweezer_single_qubit_gate_time("RotateX", 0, bits(0.2), None)
        .unwrap();
    assert_eq!(
        device.single_qubit_gate_time("RotateX", &0),
        Some(bits(0.2))
    );

    device
        .set_tweezer_multi_qubit_gate_time("MultiQubitZZ", &[0, 1], bits(0.3), None)
        .unwrap();
    device
        .set_tweezer_multi_qubit_gate_time("MultiQubitZZ", &[0, 1], bits(0.4), None)
        .unwrap();
    device.add_qubit_tweezer_mapping(1, 1).unwrap();
    assert_eq!(
        device.multi_qubit_gate_time("MultiQubitZZ", &[0, 1]),
        Some(bits(0.4))
    );
    assert_eq!(device.multi_qubit_gate_time("MultiQubitZZ", &[1, 0]), None);

    // A re-recorded pair appears once among the site edges, and the stored
    // table keeps one record per key: repeating an identical call leaves the
    // state exactly as after one call.
    device
        .set_tweezer_two_qubit_gate_time("PhaseShiftedControlledZ", 0, 1, bits(0.5), None)
        .unwrap();
    device
        .set_tweezer_two_qubit_gate_time("PhaseShiftedControlledZ", 0, 1, bits(0.6), None)
        .unwrap();
    assert_eq!(device.two_tweezer_edges(), vec![(0, 1)]);
    assert_eq!(
        device.two_qubit_gate_time("PhaseShiftedControlledZ", &0, &1),
        Some(bits(0.6))
    );
    let once = device.get_layout("default").unwrap().two.clone();
    device
        .set_tweezer_two_qubit_gate_time("PhaseShiftedControlledZ", 0, 1, bits(0.6), None)
        .unwrap();
    assert_eq!(device.get_layout("default").unwrap().two, once);
}

/// The legacy layout change by index resolves the decimal name of the index.
#[test]
fn change_device_legacy_layout_index() {
    let mut device = TweezerDevice::new(None, None, None);
    device.add_layout("1").unwrap();
    device
        .set_tweezer_single_qubit_gate_time("RotateX", 0, bits(0.5), Some("1".to_string()))
        .unwrap();

    let payload = bincode::serialize(&1u64).unwrap();
    assert!(device.change_device("PragmaChangeQRydLayout", &payload).is_ok());
    assert_eq!(device.current_layout, Some("1".to_string()));
    assert_eq!(device.number_qubits(), 1);

    let payload = bincode::serialize(&23u64).unwrap();
    assert_eq!(
        device
            .change_device("PragmaChangeQRydLayout", &payload)
            .unwrap_err(),
        QRydError::UnknownLayout
    );
    assert_eq!(device.current_layout, Some("1".to_string()));
}
