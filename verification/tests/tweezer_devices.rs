//! Integration tests for the tweezer device.
//!
//! Gate times are passed as the bit patterns of their floating-point values.

use qryd_devices::gates::SingleQubitGate;
use qryd_devices::gates::ThreeQubitGate;
use qryd_devices::gates::TwoQubitGate;
use qryd_devices::QRydError;
use qryd_devices::TweezerDevice;

fn bits(x: f64) -> u64 {
    x.to_bits()
}

fn sorted_map(device: &TweezerDevice) -> Vec<(usize, usize)> {
    let mut m = device.qubit_to_tweezer.clone().unwrap();
    m.sort();
    m
}

#[test]
fn tweezer_devices_test_new() {
    let device = TweezerDevice::new(Some(2), None, None);

    assert!(device.current_layout.is_none());
    assert!(device.qubit_to_tweezer.is_none());
    assert_eq!(device.layout_register.len(), 0);
    assert_eq!(device.seed(), Some(2));
    assert_eq!(device.qrydbackend(), "qryd_tweezer_device");

    let device_emp = TweezerDevice::new(None, None, None);

    assert_eq!(device_emp.seed(), None);
}

#[test]
fn tweezer_devices_test_layouts() {
    let mut device = TweezerDevice::new(None, None, None);

    assert!(device.current_layout.is_none());
    assert!(device.available_layouts().is_empty());

    device.add_layout("default").unwrap();
    device.current_layout = Some("default".to_string());

    assert!(device.available_layouts().contains(&"default".to_string()));

    device.add_layout("Test").unwrap();

    assert!(device.add_layout("Test").is_err());
    assert_eq!(device.add_layout("Test").unwrap_err(), QRydError::DuplicateLayout);

    assert_eq!(device.layout_register.len(), 2);
    assert!(device.get_layout("default").is_some());
    assert!(device.get_layout("Test").is_some());

    device
        .set_tweezer_single_qubit_gate_time("RotateX", 0, bits(0.23), None)
        .unwrap();
    device
        .set_tweezer_single_qubit_gate_time("RotateZ", 1, bits(0.23), Some("Test".to_string()))
        .unwrap();
    device
        .set_tweezer_single_qubit_gate_time(
            "PhaseShiftState1",
            2,
            bits(0.23),
            Some("Test".to_string()),
        )
        .unwrap();
    device
        .set_tweezer_two_qubit_gate_time("PhaseShiftedControlledPhase", 0, 1, bits(0.23), None)
        .unwrap();
    device
        .set_tweezer_two_qubit_gate_time(
            "PhaseShiftedControlledPhase",
            0,
            1,
            bits(0.23),
            Some("Test".to_string()),
        )
        .unwrap();
    device
        .set_tweezer_three_qubit_gate_time(
            "ControlledControlledPauliZ",
            0,
            1,
            2,
            bits(0.34),
            None,
        )
        .unwrap();
    device
        .set_tweezer_three_qubit_gate_time(
            "ControlledControlledPauliZ",
            0,
            1,
            2,
            bits(0.34),
            Some("Test".to_string()),
        )
        .unwrap();

    let default_layout = device.get_layout("default").unwrap();
    assert_eq!(
        default_layout.single_qubit_gate_time(SingleQubitGate::RotateX, 0),
        Some(bits(0.23))
    );
    assert_eq!(
        default_layout.two_qubit_gate_time(TwoQubitGate::PhaseShiftedControlledPhase, 0, 1),
        Some(bits(0.23))
    );
    assert_eq!(
        default_layout.three_qubit_gate_time(
            ThreeQubitGate::ControlledControlledPauliZ,
            0,
            1,
            2
        ),
        Some(bits(0.34))
    );
    let test_layout = device.get_layout("Test").unwrap();
    assert_eq!(
        test_layout.single_qubit_gate_time(SingleQubitGate::RotateZ, 1),
        Some(bits(0.23))
    );
    assert_eq!(
        test_layout.single_qubit_gate_time(SingleQubitGate::PhaseShiftState1, 2),
        Some(bits(0.23))
    );
    assert_eq!(
        test_layout.two_qubit_gate_time(TwoQubitGate::PhaseShiftedControlledPhase, 0, 1),
        Some(bits(0.23))
    );
    assert_eq!(
        test_layout.three_qubit_gate_time(ThreeQubitGate::ControlledControlledPauliZ, 0, 1, 2),
        Some(bits(0.34))
    );

    assert_eq!(device.current_layout, Some("default".to_string()));
    assert!(device.qubit_to_tweezer.is_none());

    device.switch_layout("Test", None).unwrap();
    assert_eq!(device.current_layout, Some("Test".to_string()));
    assert!(device.qubit_to_tweezer.is_some());
    assert_eq!(device.qubit_to_tweezer.clone().unwrap().len(), 3);

    assert!(device.switch_layout("Error", None).is_err());
    assert_eq!(
        device.switch_layout("Error", None).unwrap_err(),
        QRydError::UnknownLayout
    );

    assert!(device.available_layouts().contains(&"Test".to_string()));

    device.add_layout("test_trivial_population").unwrap();
    device
        .set_tweezer_single_qubit_gate_time(
            "RotateZ",
            1,
            bits(0.23),
            Some("test_trivial_population".to_string()),
        )
        .unwrap();
    device
        .set_tweezer_single_qubit_gate_time(
            "RotateX",
            2,
            bits(0.23),
            Some("test_trivial_population".to_string()),
        )
        .unwrap();
    device
        .switch_layout("test_trivial_population", Some(false))
        .unwrap();

    assert!(device.qubit_to_tweezer.is_none());

    device
        .switch_layout("test_trivial_population", Some(true))
        .unwrap();

    // The trivial population assigns qubit i to site i for each site i that
    // carries a gate time in the new layout; here those sites are 1 and 2.
    assert_eq!(sorted_map(&device), vec![(1, 1), (2, 2)]);
}

#[test]
fn tweezer_devices_test_qubit_tweezer_mapping() {
    let mut device = TweezerDevice::new(None, None, None);
    device.add_layout("default").unwrap();
    device.current_layout = Some("default".to_string());

    assert!(device.add_qubit_tweezer_mapping(0, 0).is_err());
    assert!(device.get_tweezer_from_qubit(&0).is_err());

    device
        .set_tweezer_single_qubit_gate_time("RotateX", 0, bits(0.0), None)
        .unwrap();
    device
        .set_tweezer_three_qubit_gate_time(
            "ControlledControlledPauliZ",
            1,
            2,
            3,
            bits(0.1),
            None,
        )
        .unwrap();

    assert!(device.add_qubit_tweezer_mapping(0, 0).is_ok());
    assert!(device.add_qubit_tweezer_mapping(2, 3).is_ok());

    assert_eq!(device.get_tweezer_from_qubit(&0).unwrap(), 0);
    assert_eq!(device.get_tweezer_from_qubit(&2).unwrap(), 3);
    assert!(device.get_tweezer_from_qubit(&4).is_err());
    assert_eq!(
        device.get_tweezer_from_qubit(&4).unwrap_err(),
        QRydError::QubitNotFound
    );

    let add_01 = device.add_qubit_tweezer_mapping(0, 1);
    assert!(add_01.is_ok());
    let mut returned = add_01.unwrap();
    returned.sort();
    assert_eq!(returned, vec![(0, 1), (2, 3)]);
}

#[test]
fn tweezer_devices_test_allowed_tweezer_shifts_from_rows() {
    let mut device = TweezerDevice::new(None, None, None);
    device.add_layout("triangle").unwrap();
    for t in 0..6 {
        device
            .set_tweezer_single_qubit_gate_time(
                "RotateX",
                t,
                bits(0.0),
                Some("triangle".to_string()),
            )
            .unwrap();
    }

    assert!(device
        .set_allowed_tweezer_shifts_from_rows(
            &[&[0, 1, 2], &[3, 4, 5]],
            Some("triangle".to_string())
        )
        .is_ok());

    let layout = device.get_layout("triangle").unwrap();
    let shifts_at = |t: usize| layout.allowed_shifts_at(t).unwrap();
    assert!(shifts_at(0).contains(&vec![1, 2]));
    assert!(shifts_at(1).contains(&vec![0]));
    assert!(shifts_at(1).contains(&vec![2]));
    assert!(shifts_at(2).contains(&vec![1, 0]));
    assert!(shifts_at(3).contains(&vec![4, 5]));
    assert!(shifts_at(4).contains(&vec![3]));
    assert!(shifts_at(4).contains(&vec![5]));
    assert!(shifts_at(5).contains(&vec![4, 3]));

    let incorrect_tweezer =
        device.set_allowed_tweezer_shifts_from_rows(&[&[9]], Some("triangle".to_string()));
    assert!(incorrect_tweezer.is_err());
    assert_eq!(incorrect_tweezer.unwrap_err(), QRydError::SiteNotFound);

    let adding_to_already_present_key = device.set_allowed_tweezer_shifts_from_rows(
        &[&[0, 3], &[1, 4], &[2, 5]],
        Some("triangle".to_string()),
    );
    assert!(adding_to_already_present_key.is_ok());

    let layout = device.get_layout("triangle").unwrap();
    let shifts_at = |t: usize| layout.allowed_shifts_at(t).unwrap();
    assert!(shifts_at(0).contains(&vec![1, 2]));
    assert!(shifts_at(0).contains(&vec![3]));
    assert!(shifts_at(1).contains(&vec![0]));
    assert!(shifts_at(1).contains(&vec![2]));
    assert!(shifts_at(1).contains(&vec![4]));
    assert!(shifts_at(2).contains(&vec![1, 0]));
    assert!(shifts_at(2).contains(&vec![5]));
    assert!(shifts_at(3).contains(&vec![4, 5]));
    assert!(shifts_at(3).contains(&vec![0]));
    assert!(shifts_at(4).contains(&vec![3]));
    assert!(shifts_at(4).contains(&vec![5]));
    assert!(shifts_at(4).contains(&vec![1]));
    assert!(shifts_at(5).contains(&vec![4, 3]));
    assert!(shifts_at(5).contains(&vec![2]));
}

#[test]
fn tweezer_devices_test_allowed_tweezer_shifts() {
    let mut device = TweezerDevice::new(None, None, None);
    device.add_layout("OtherLayout").unwrap();
    for t in 0..5 {
        device
            .set_tweezer_single_qubit_gate_time(
                "RotateX",
                t,
                bits(0.0),
                Some("OtherLayout".to_string()),
            )
            .unwrap();
    }
    device.switch_layout("OtherLayout", None).unwrap();

    assert!(device
        .set_allowed_tweezer_shifts(&0, &[&[1], &[2]], Some("OtherLayout".to_string()))
        .is_ok());

    let layout = device.get_layout("OtherLayout").unwrap();
    let saved = layout.allowed_shifts_at(0).unwrap();
    assert!(saved.contains(&vec![1]));
    assert!(saved.contains(&vec![2]));

    let incorrect_shift_list =
        device.set_allowed_tweezer_shifts(&0, &[&[0]], Some("OtherLayout".to_string()));
    assert!(incorrect_shift_list.is_err());
    assert_eq!(incorrect_shift_list.unwrap_err(), QRydError::InvalidShift);

    let incorrect_tweezer = device.set_allowed_tweezer_shifts(&5, &[&[0]], None);
    assert!(incorrect_tweezer.is_err());
    assert_eq!(incorrect_tweezer.unwrap_err(), QRydError::SiteNotFound);

    let incorrect_shift_list_2 = device.set_allowed_tweezer_shifts(&2, &[&[5]], None);
    assert!(incorrect_shift_list_2.is_err());
    assert_eq!(incorrect_shift_list_2.unwrap_err(), QRydError::SiteNotFound);

    assert!(device
        .set_allowed_tweezer_shifts(&0, &[&[3], &[4]], Some("OtherLayout".to_string()))
        .is_ok());

    let layout = device.get_layout("OtherLayout").unwrap();
    let saved = layout.allowed_shifts_at(0).unwrap();
    assert!(saved.contains(&vec![3]));
    assert!(saved.contains(&vec![4]));
}

#[test]
fn tweezer_devices_test_deactivate_qubit() {
    let mut device = TweezerDevice::new(None, None, None);
    device.add_layout("default").unwrap();
    device.current_layout = Some("default".to_string());

    assert!(device.deactivate_qubit(0).is_err());

    device
        .set_tweezer_single_qubit_gate_time("RotateX", 1, bits(0.1), None)
        .unwrap();
    device.add_qubit_tweezer_mapping(0, 1).unwrap();

    assert!(device.deactivate_qubit(0).is_ok());
    assert!(device.deactivate_qubit(0).is_err());
    assert_eq!(device.deactivate_qubit(0).unwrap_err(), QRydError::QubitNotFound);
}

#[test]
fn tweezer_devices_test_qubit_times() {
    let mut device = TweezerDevice::new(None, None, None);
    device.add_layout("default").unwrap();
    device.current_layout = Some("default".to_string());

    assert!(device.single_qubit_gate_time("RotateX", &0).is_none());

    assert!(device.single_qubit_gate_time("RotateX", &5).is_none());
    assert!(device
        .two_qubit_gate_time("PhaseShiftedControlledPhase", &0, &7)
        .is_none());
    assert!(device
        .three_qubit_gate_time("ControlledControlledPhaseShift", &12, &1, &3)
        .is_none());
    assert!(device
        .multi_qubit_gate_time("MultiQubitZZ", &[6, 2, 3, 4])
        .is_none());

    device
        .set_tweezer_single_qubit_gate_time("RotateX", 1, bits(0.23), None)
        .unwrap();
    device
        .set_tweezer_two_qubit_gate_time("PhaseShiftedControlledPhase", 0, 1, bits(0.45), None)
        .unwrap();
    device
        .set_tweezer_three_qubit_gate_time(
            "ControlledControlledPhaseShift",
            0,
            1,
            2,
            bits(0.65),
            None,
        )
        .unwrap();

    device.add_qubit_tweezer_mapping(0, 1).unwrap();
    device.add_qubit_tweezer_mapping(1, 2).unwrap();
    device.add_qubit_tweezer_mapping(3, 0).unwrap();

    assert!(device.single_qubit_gate_time("RotateX", &0).is_some());
    assert_eq!(
        device.single_qubit_gate_time("RotateX", &0).unwrap(),
        bits(0.23)
    );
    assert_eq!(
        device
            .two_qubit_gate_time("PhaseShiftedControlledPhase", &3, &0)
            .unwrap(),
        bits(0.45)
    );
    assert_eq!(
        device
            .three_qubit_gate_time("ControlledControlledPhaseShift", &3, &0, &1)
            .unwrap(),
        bits(0.65)
    );
}

#[test]
fn tweezer_devices_test_number_qubits() {
    let mut device = TweezerDevice::new(None, None, None);
    device.add_layout("default").unwrap();
    device.current_layout = Some("default".to_string());

    assert_eq!(device.number_qubits(), 0);

    device
        .set_tweezer_single_qubit_gate_time("RotateX", 0, bits(0.0), None)
        .unwrap();
    device
        .set_tweezer_single_qubit_gate_time("RotateX", 1, bits(0.0), None)
        .unwrap();

    assert_eq!(device.number_qubits(), 0);

    device.add_qubit_tweezer_mapping(0, 0).unwrap();
    device.add_qubit_tweezer_mapping(1, 1).unwrap();

    assert_eq!(device.number_qubits(), 2)
}

#[test]
fn test_number_tweezer_positions() {
    let mut device = TweezerDevice::new(None, None, None);
    device.add_layout("default").unwrap();
    device.add_layout("empty").unwrap();

    assert_eq!(
        device.number_tweezer_positions(Some("empty".to_string())),
        Ok(0)
    );

    assert!(device.number_tweezer_positions(None).is_err());
    assert!(device
        .number_tweezer_positions(Some("error".to_string()))
        .is_err());

    device.current_layout = Some("default".to_string());
    device
        .set_tweezer_single_qubit_gate_time("RotateX", 0, bits(0.23), None)
        .unwrap();
    device
        .set_tweezer_two_qubit_gate_time("PhaseShiftedControlledPhase", 1, 7, bits(0.23), None)
        .unwrap();
    device
        .set_tweezer_three_qubit_gate_time(
            "ControlledControlledPhaseShift",
            2,
            9,
            13,
            bits(0.34),
            None,
        )
        .unwrap();

    assert_eq!(device.number_tweezer_positions(None), Ok(6));
}

#[test]
fn test_change_device() {
    let mut device = TweezerDevice::new(None, None, None);
    device.add_layout("Test").unwrap();
    device
        .set_tweezer_single_qubit_gate_time("RotateXY", 0, bits(0.23), Some("Test".to_string()))
        .unwrap();
    device
        .set_tweezer_single_qubit_gate_time("RotateZ", 1, bits(0.23), Some("Test".to_string()))
        .unwrap();
    device
        .set_tweezer_two_qubit_gate_time(
            "PhaseShiftedControlledZ",
            2,
            3,
            bits(0.34),
            Some("Test".to_string()),
        )
        .unwrap();
    device
        .set_tweezer_two_qubit_gate_time(
            "PhaseShiftedControlledPhase",
            1,
            2,
            bits(0.34),
            Some("Test".to_string()),
        )
        .unwrap();
    let pragma_old_c = bincode::serialize(&0u64).unwrap();
    let positions: std::collections::HashMap<u64, (u64, u64)> =
        [(0u64, (1u64, 2u64))].into_iter().collect();
    let pragma_old_s = bincode::serialize(&positions).unwrap();

    assert!(device.change_device("Error", &Vec::<u8>::new()).is_err());
    assert_eq!(
        device.change_device("Error", &Vec::<u8>::new()).unwrap_err(),
        QRydError::UnsupportedOperation
    );
    assert!(device
        .change_device("PragmaChangeQRydLayout", &Vec::<u8>::new())
        .is_err());
    assert_eq!(
        device
            .change_device("PragmaChangeQRydLayout", &Vec::<u8>::new())
            .unwrap_err(),
        QRydError::SerializationError
    );
    assert!(device.current_layout.is_none());
    assert!(device
        .change_device("PragmaChangeQRydLayout", &pragma_old_c)
        .is_err());

    assert!(device
        .change_device("PragmaShiftQRydQubit", &pragma_old_s)
        .is_err());
}

#[test]
fn test_change_device_switch() {
    let mut device = TweezerDevice::new(None, None, None);
    device.add_layout("two_rows_two_twzrs_0").unwrap();
    for (t0, t1, time) in [(0, 1, 0.23), (2, 3, 0.23), (0, 2, 0.34), (1, 3, 0.34)] {
        device
            .set_tweezer_two_qubit_gate_time(
                "PhaseShiftedControlledZ",
                t0,
                t1,
                bits(time),
                Some("two_rows_two_twzrs_0".to_string()),
            )
            .unwrap();
    }
    device.add_layout("two_rows_two_twzrs_1").unwrap();
    for (t0, t1, time) in [(0, 1, 0.23), (2, 3, 0.23), (0, 3, 0.34)] {
        device
            .set_tweezer_two_qubit_gate_time(
                "PhaseShiftedControlledZ",
                t0,
                t1,
                bits(time),
                Some("two_rows_two_twzrs_1".to_string()),
            )
            .unwrap();
    }
    device.add_layout("one_row_three_twzrs").unwrap();
    device
        .set_tweezer_three_qubit_gate_time(
            "ControlledControlledPauliZ",
            0,
            1,
            2,
            bits(0.4),
            Some("one_row_three_twzrs".to_string()),
        )
        .unwrap();
    device.add_layout("no_twzrs_per_row_set").unwrap();

    assert!(device.set_tweezers_per_row(vec![5, 2, 3], None).is_err());

    device
        .switch_layout("two_rows_two_twzrs_0", Some(true))
        .unwrap();

    device
        .set_tweezers_per_row(vec![2, 2], Some("two_rows_two_twzrs_0".to_string()))
        .unwrap();
    device
        .set_tweezers_per_row(vec![2, 2], Some("two_rows_two_twzrs_1".to_string()))
        .unwrap();
    device
        .set_tweezers_per_row(vec![3], Some("one_row_three_twzrs".to_string()))
        .unwrap();

    let pragma_correct = bincode::serialize(&"two_rows_two_twzrs_1".to_string()).unwrap();
    let pragma_incorrect_0 = bincode::serialize(&"one_row_three_twzrs".to_string()).unwrap();
    let pragma_incorrect_1 = bincode::serialize(&"no_twzrs_per_row_set".to_string()).unwrap();
    let pragma_incorrect_2 = bincode::serialize(&"non_existant_layout".to_string()).unwrap();

    assert!(device
        .change_device("PragmaSwitchDeviceLayout", &Vec::<u8>::new())
        .is_err());

    assert!(device
        .change_device("PragmaSwitchDeviceLayout", &pragma_correct)
        .is_ok());
    assert_eq!(
        device.current_layout,
        Some("two_rows_two_twzrs_1".to_string())
    );

    let wrong_switch = device.change_device("PragmaSwitchDeviceLayout", &pragma_incorrect_0);
    assert!(wrong_switch.is_err());
    assert_eq!(wrong_switch.unwrap_err(), QRydError::RowPartitionMismatch);

    let wrong_switch = device.change_device("PragmaSwitchDeviceLayout", &pragma_incorrect_1);
    assert!(wrong_switch.is_err());
    assert_eq!(wrong_switch.unwrap_err(), QRydError::RowPartitionMissing);

    let wrong_switch = device.change_device("PragmaSwitchDeviceLayout", &pragma_incorrect_2);
    assert!(wrong_switch.is_err());
    assert_eq!(wrong_switch.unwrap_err(), QRydError::UnknownLayout);
}

#[test]
fn test_allow_reset() {
    let mut device = TweezerDevice::new(None, None, None);
    assert!(!device.allow_reset);
    assert!(device.set_allow_reset(true).is_ok());
    assert!(device.allow_reset);
}

#[test]
fn test_change_device_shift() {
    let mut device = TweezerDevice::new(None, None, None);
    device.add_layout("triangle").unwrap();
    device
        .set_tweezer_single_qubit_gate_time("RotateZ", 0, bits(0.23), Some("triangle".to_string()))
        .unwrap();
    device
        .set_tweezer_single_qubit_gate_time("RotateX", 1, bits(0.23), Some("triangle".to_string()))
        .unwrap();
    device
        .set_tweezer_two_qubit_gate_time(
            "PhaseShiftedControlledZ",
            2,
            3,
            bits(0.34),
            Some("triangle".to_string()),
        )
        .unwrap();
    device
        .set_tweezer_two_qubit_gate_time(
            "PhaseShiftedControlledPhase",
            1,
            2,
            bits(0.34),
            Some("triangle".to_string()),
        )
        .unwrap();
    device
        .set_tweezer_two_qubit_gate_time(
            "PhaseShiftedControlledPhase",
            4,
            5,
            bits(0.34),
            Some("triangle".to_string()),
        )
        .unwrap();
    device
        .set_allowed_tweezer_shifts(&0, &[&[1, 2], &[3]], Some("triangle".to_string()))
        .unwrap();
    device
        .set_allowed_tweezer_shifts(&1, &[&[4, 5]], Some("triangle".to_string()))
        .unwrap();

    let pragma_s = bincode::serialize(&vec![(0u64, 1u64), (2u64, 3u64)]).unwrap();

    let err1 = device.change_device("PragmaShiftQubitsTweezers", &pragma_s);
    assert!(err1.is_err());
    assert_eq!(err1.unwrap_err(), QRydError::QubitNotFound);

    device.current_layout = Some("triangle".to_string());
    device.add_qubit_tweezer_mapping(0, 0).unwrap();
    device.add_qubit_tweezer_mapping(1, 1).unwrap();
    device.add_qubit_tweezer_mapping(2, 2).unwrap();

    let err2 = device.change_device("PragmaShiftQubitsTweezers", &pragma_s);
    assert!(err2.is_err());
    assert_eq!(err2.unwrap_err(), QRydError::InvalidShift);

    device.set_allowed_tweezer_shifts(&2, &[&[3]], None).unwrap();

    // The target of the first move is still occupied.
    let before = sorted_map(&device);
    let err3 = device.change_device("PragmaShiftQubitsTweezers", &pragma_s);
    assert!(err3.is_err());
    // A failed reconfiguration leaves the assignment untouched.
    assert_eq!(sorted_map(&device), before);

    device.deactivate_qubit(1).unwrap();

    let ok = device.change_device("PragmaShiftQubitsTweezers", &pragma_s);
    assert!(ok.is_ok());
    assert_eq!(device.qubit_to_tweezer.as_ref().unwrap().len(), 2);
    assert_eq!(device.get_tweezer_from_qubit(&0).unwrap(), 1);
    assert_eq!(device.get_tweezer_from_qubit(&2).unwrap(), 3);

    device.add_qubit_tweezer_mapping(4, 4).unwrap();

    let pragma_s = bincode::serialize(&vec![(1u64, 5u64)]).unwrap();
    let err4 = device.change_device("PragmaShiftQubitsTweezers", &pragma_s);
    assert!(err4.is_err());
}

#[test]
fn test_change_device_shift_row() {
    let mut device = TweezerDevice::new(None, None, None);
    device.add_layout("row").unwrap();
    for (t0, t1) in [(0, 1), (1, 2), (2, 3), (4, 1)] {
        device
            .set_tweezer_two_qubit_gate_time(
                "PhaseShiftedControlledPhase",
                t0,
                t1,
                bits(0.34),
                Some("row".to_string()),
            )
            .unwrap();
    }
    device
        .set_allowed_tweezer_shifts(&0, &[&[1, 2, 3]], Some("row".to_string()))
        .unwrap();
    device
        .set_allowed_tweezer_shifts(&1, &[&[0], &[2, 3]], Some("row".to_string()))
        .unwrap();
    device
        .set_allowed_tweezer_shifts(&2, &[&[1, 0], &[3]], Some("row".to_string()))
        .unwrap();
    device
        .set_allowed_tweezer_shifts(&3, &[&[2, 1, 0]], Some("row".to_string()))
        .unwrap();

    device.current_layout = Some("row".to_string());
    device.add_qubit_tweezer_mapping(0, 0).unwrap();
    device.add_qubit_tweezer_mapping(1, 1).unwrap();
    device.add_qubit_tweezer_mapping(2, 2).unwrap();

    let mut cloned = device.clone();

    let pragma_s = bincode::serialize(&vec![(2u64, 3u64), (1u64, 2u64), (0u64, 1u64)]).unwrap();

    let res = cloned.change_device("PragmaShiftQubitsTweezers", &pragma_s);

    assert!(res.is_ok());
    assert_eq!(sorted_map(&cloned), vec![(0, 1), (1, 2), (2, 3)]);

    device
        .set_allowed_tweezer_shifts(&4, &[&[1]], Some("row".to_string()))
        .unwrap();

    device.add_qubit_tweezer_mapping(4, 4).unwrap();

    let pragma_s =
        bincode::serialize(&vec![(2u64, 3u64), (1u64, 2u64), (0u64, 1u64), (4u64, 1u64)]).unwrap();

    let res = device.change_device("PragmaShiftQubitsTweezers", &pragma_s);

    assert!(res.is_err());
}

#[test]
fn tweezer_devices_test_two_tweezer_edges() {
    let mut device = TweezerDevice::new(None, None, None);
    device.add_layout("default").unwrap();
    device.current_layout = Some("default".to_string());

    assert_eq!(device.two_tweezer_edges().len(), 0);

    for (t0, t1) in [(0, 1), (0, 2), (1, 3), (2, 3)] {
        device
            .set_tweezer_two_qubit_gate_time(
                "PhaseShiftedControlledPhase",
                t0,
                t1,
                bits(0.0),
                None,
            )
            .unwrap();
    }

    assert_eq!(device.two_tweezer_edges().len(), 4);
    assert!(device
        .two_tweezer_edges()
        .iter()
        .all(|el| [(0, 1), (0, 2), (1, 3), (2, 3)].contains(el)));
}

#[test]
fn tweezer_devices_test_default_layout() {
    let mut device = TweezerDevice::new(None, None, None);
    device.add_layout("triangle").unwrap();
    device
        .set_tweezer_single_qubit_gate_time("RotateZ", 0, bits(0.23), Some("triangle".to_string()))
        .unwrap();

    assert!(device.set_default_layout("square").is_err());

    assert!(device.set_default_layout("triangle").is_ok());
    assert_eq!(device.default_layout, Some("triangle".to_string()));
    assert_eq!(device.current_layout, Some("triangle".to_string()));
}

#[test]
fn test_setters_native_set_error() {
    let mut device = TweezerDevice::new(None, None, None);
    device.add_layout("layout_name").unwrap();

    let single_setter = device.set_tweezer_single_qubit_gate_time(
        "wrong",
        0,
        bits(1.0),
        Some("layout_name".to_string()),
    );
    assert!(single_setter.is_err());
    assert_eq!(single_setter.unwrap_err(), QRydError::UnknownGate);

    let two_setter = device.set_tweezer_two_qubit_gate_time(
        "wrong",
        0,
        1,
        bits(1.0),
        Some("layout_name".to_string()),
    );
    assert!(two_setter.is_err());
    assert_eq!(two_setter.unwrap_err(), QRydError::UnknownGate);

    let three_setter = device.set_tweezer_three_qubit_gate_time(
        "wrong",
        0,
        1,
        2,
        bits(1.0),
        Some("layout_name".to_string()),
    );
    assert!(three_setter.is_err());
    assert_eq!(three_setter.unwrap_err(), QRydError::UnknownGate);

    let multi_setter = device.set_tweezer_multi_qubit_gate_time(
        "wrong",
        &[0, 1, 2, 3],
        bits(1.0),
        Some("layout_name".to_string()),
    );
    assert!(multi_setter.is_err());
    assert_eq!(multi_setter.unwrap_err(), QRydError::UnknownGate);
}

#[test]
fn test_available_gate_names() {
    let mut device = TweezerDevice::new(None, None, None);
    device.add_layout("layout_name").unwrap();

    let res = device.get_available_gates_names(None);
    assert_eq!(res.unwrap_err(), QRydError::NoLayoutSet);

    let res = device.get_available_gates_names(Some("".to_string()));
    assert_eq!(res.unwrap(), Vec::<String>::new());

    device
        .set_tweezer_single_qubit_gate_time(
            "PhaseShiftState1",
            0,
            bits(1.0),
            Some("layout_name".to_string()),
        )
        .unwrap();

    assert_eq!(
        device
            .get_available_gates_names(Some("layout_name".to_string()))
            .unwrap(),
        vec!["PhaseShiftState1".to_string()]
    );

    let res = device.get_available_gates_names(None);
    assert_eq!(res.unwrap_err(), QRydError::NoLayoutSet);

    device
        .set_tweezer_two_qubit_gate_time(
            "PhaseShiftedControlledPhase",
            0,
            1,
            bits(1.0),
            Some("layout_name".to_string()),
        )
        .unwrap();
    device
        .set_tweezer_three_qubit_gate_time(
            "ControlledControlledPauliZ",
            0,
            1,
            2,
            bits(1.0),
            Some("layout_name".to_string()),
        )
        .unwrap();

    let expected_result = vec![
        "PhaseShiftState1".to_string(),
        "PhaseShiftedControlledPhase".to_string(),
        "ControlledControlledPauliZ".to_string(),
    ];
    assert_eq!(
        device
            .get_available_gates_names(Some("layout_name".to_string()))
            .unwrap()
            .into_iter()
            .filter(|extracted| expected_result.contains(extracted))
            .count(),
        expected_result.len()
    );

    device.switch_layout("layout_name", None).unwrap();

    assert_eq!(
        device
            .get_available_gates_names(None)
            .unwrap()
            .into_iter()
            .filter(|extracted| expected_result.contains(extracted))
            .count(),
        expected_result.len()
    );
}
