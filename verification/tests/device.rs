use smix_cli::device::{cold_boot_refusal, DeviceKind};

#[test]
fn an_emulator_that_is_off_boots_cold() {
    assert_eq!(cold_boot_refusal("e", DeviceKind::Emulator, false), None);
}

#[test]
fn a_running_emulator_is_told_to_stop_first() {
    let why = cold_boot_refusal("e", DeviceKind::Emulator, true).expect("refused");
    assert!(why.contains("smix sim shutdown e"), "{why}");
}

#[test]
fn every_other_kind_is_refused_by_name() {
    for kind in [
        DeviceKind::Simulator,
        DeviceKind::PhysicalIos,
        DeviceKind::PhysicalAndroid,
    ] {
        assert!(cold_boot_refusal("d", kind, false).is_some(), "{kind:?}");
    }
}

#[test]
fn a_simulator_is_told_it_has_no_snapshot_to_skip() {
    let why = cold_boot_refusal("sim1", DeviceKind::Simulator, true).unwrap();
    assert!(why.starts_with("sim1 is an iOS simulator"), "{why}");
}

use smix_cli::device::{
    classify_device, guard_sim_verb, is_destructive, needs_destruction_gate, sim_verb_supports,
    takes_device, SimVerb,
};

#[test]
fn payload_verbs_reach_android() {
    let install = sim_verb_supports(SimVerb::Install).expect("install takes a device");
    assert!(install.contains(&DeviceKind::Emulator), "install: {install:?}");
    assert!(install.contains(&DeviceKind::PhysicalAndroid), "install: {install:?}");
    assert!(install.contains(&DeviceKind::Simulator), "install: {install:?}");
    assert!(
        !install.contains(&DeviceKind::PhysicalIos),
        "install claims a physical iPhone, and nothing here can put an app on one: {install:?}"
    );
    let uninstall = sim_verb_supports(SimVerb::Uninstall).expect("uninstall takes a device");
    for kind in [
        DeviceKind::Simulator,
        DeviceKind::PhysicalIos,
        DeviceKind::Emulator,
        DeviceKind::PhysicalAndroid,
    ] {
        assert!(uninstall.contains(&kind), "uninstall dropped {kind:?}: {uninstall:?}");
    }
}

#[test]
fn a_device_ref_is_classed_by_the_registry_then_by_shape() {
    assert_eq!(
        classify_device(Some(DeviceKind::PhysicalIos), false),
        DeviceKind::PhysicalIos
    );
    assert_eq!(classify_device(Some(DeviceKind::PhysicalIos), true), DeviceKind::PhysicalIos);
    assert_eq!(classify_device(None, true), DeviceKind::Emulator);
    assert_eq!(classify_device(None, false), DeviceKind::Simulator);
}

#[test]
fn registry_verbs_take_no_kind_list() {
    for v in [
        SimVerb::List,
        SimVerb::Register,
        SimVerb::AllowDestructive,
        SimVerb::Migrate,
        SimVerb::Unregister,
        SimVerb::Resolve,
    ] {
        assert_eq!(sim_verb_supports(v), None, "{v:?}");
        assert_eq!(guard_sim_verb(v, "x", DeviceKind::PhysicalIos), Ok(()));
    }
    assert_eq!(sim_verb_supports(SimVerb::Boot), Some(vec![DeviceKind::Simulator]));
    assert_eq!(
        sim_verb_supports(SimVerb::KeychainReset),
        Some(vec![DeviceKind::Simulator, DeviceKind::PhysicalIos])
    );
}

#[test]
fn a_simctl_verb_on_an_emulator_is_refused_with_the_adb_route() {
    let err = guard_sim_verb(SimVerb::Boot, "pixel", DeviceKind::Emulator).unwrap_err();
    assert_eq!(
        err,
        "this command runs through simctl, and pixel is an Android emulator — so there is nothing here it could do to it.\nAndroid lifecycle goes through adb — `smix runner up <serial> --platform android` brings the device up for driving."
    );
    let err = guard_sim_verb(SimVerb::Erase, "phone", DeviceKind::PhysicalIos).unwrap_err();
    assert_eq!(
        err,
        "this command runs through simctl, and phone is a physical iPhone or iPad — so there is nothing here it could do to it."
    );
    assert_eq!(guard_sim_verb(SimVerb::Install, "pixel", DeviceKind::Emulator), Ok(()));
}

#[test]
fn exec_is_destructive_and_boot_is_not() {
    assert!(is_destructive(SimVerb::Exec));
    assert!(is_destructive(SimVerb::Erase));
    assert!(is_destructive(SimVerb::Uninstall));
    assert!(is_destructive(SimVerb::KeychainReset));
    assert!(!is_destructive(SimVerb::Boot));
    assert!(!is_destructive(SimVerb::Install));
    assert!(needs_destruction_gate(SimVerb::Exec));
    assert!(!needs_destruction_gate(SimVerb::List));
    assert!(!takes_device(SimVerb::Unregister));
    assert!(takes_device(SimVerb::Register));
}
