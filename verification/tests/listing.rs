use smix_cli::device::DeviceKind;
use smix_cli::listing::{
    android_row, registered_list_heading, registered_row, sim_list_heading, sim_migrate_summary,
    simulator_row, unmigrated_note,
};

#[test]
fn the_tables_pad_like_format_does() {
    assert_eq!(
        sim_list_heading(),
        format!("{:<40} {:<28} {:<10} RUNTIME", "UDID", "NAME", "STATE")
    );
    assert_eq!(
        registered_list_heading(),
        format!("{:<20} {:<40} {:<10} SCOPE", "ALIAS", "UDID", "KIND")
    );
}

#[test]
fn a_simulator_row_shows_its_runtime_short_name() {
    assert_eq!(
        simulator_row("U-1", "iPhone 17 Pro", "Booted", "com.apple.CoreSimulator.SimRuntime.iOS-26-0"),
        format!("{:<40} {:<28} {:<10} iOS-26-0", "U-1", "iPhone 17 Pro", "Booted")
    );
    assert_eq!(
        simulator_row("U-1", "é", "Shutdown", "plain"),
        format!("{:<40} {:<28} {:<10} plain", "U-1", "é", "Shutdown")
    );
}

#[test]
fn an_android_row_falls_back_to_the_serial_and_plain_android() {
    assert_eq!(
        android_row("emulator-5554", "device", "", ""),
        format!("{:<40} {:<28} {:<10} Android", "emulator-5554", "emulator-5554", "device")
    );
    assert_eq!(
        android_row("R5", "device", "Pixel_8", "15"),
        format!("{:<40} {:<28} {:<10} Android-15", "R5", "Pixel_8", "device")
    );
}

#[test]
fn a_registered_row_says_where_its_record_lives() {
    assert_eq!(
        registered_row("phone", "0000-1", DeviceKind::PhysicalIos, None),
        format!("{:<20} {:<40} {:<10} machine", "phone", "0000-1", "physicalios")
    );
    assert_eq!(
        registered_row("dev", "U", DeviceKind::Simulator, Some("/src/app/.smix")),
        format!("{:<20} {:<40} {:<10} /src/app/.smix", "dev", "U", "simulator")
    );
    assert_eq!(unmigrated_note(0), None);
    assert!(unmigrated_note(2).unwrap().starts_with("2 record(s) live in a checkout"));
}

#[test]
fn the_migration_summary_counts_and_reassures() {
    assert_eq!(
        sim_migrate_summary(2, 1, false, "/m/sims.json"),
        vec![
            "2 device(s) now recorded in /m/sims.json (1 already there)".to_string(),
            "the source registries are untouched — delete them yourself once every tree you use has been migrated".to_string(),
        ]
    );
    assert_eq!(
        sim_migrate_summary(2, 0, true, "/m"),
        vec!["2 device(s) would be recorded in /m (0 already there)".to_string()]
    );
}
