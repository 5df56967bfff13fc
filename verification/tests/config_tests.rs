use zram_generator::config::{
    compute_disksize, device_index, get_total_memory_kb, include_device, parse_device,
    parse_fraction, parse_optional_size, read_all_devices, read_device, select_mode, CliMode,
    ConfigError, Device, DeviceKind, Fraction,
};

#[test]
fn fraction_parsing() {
    assert_eq!(parse_fraction("0.25"), Some(Fraction { num: 25, den: 100 }));
    assert_eq!(parse_fraction("1.5"), Some(Fraction { num: 15, den: 10 }));
    assert_eq!(parse_fraction(".5"), Some(Fraction { num: 5, den: 10 }));
    assert_eq!(parse_fraction("5."), Some(Fraction { num: 5, den: 1 }));
    assert_eq!(parse_fraction("2"), Some(Fraction { num: 2, den: 1 }));
    assert_eq!(parse_fraction(""), None);
    assert_eq!(parse_fraction("."), None);
    assert_eq!(parse_fraction("1e3"), None);
    assert_eq!(parse_fraction("-0.5"), None);
    assert_eq!(parse_fraction("0.2.5"), None);
}

#[test]
fn optional_size_parsing() {
    assert_eq!(parse_optional_size("none"), Some(None));
    assert_eq!(parse_optional_size("100"), Some(Some(100)));
    assert_eq!(parse_optional_size("0"), Some(Some(0)));
    assert_eq!(parse_optional_size("12x"), None);
    assert_eq!(parse_optional_size(""), None);
    assert_eq!(
        parse_optional_size("18446744073709551615"),
        Some(Some(u64::MAX))
    );
    assert_eq!(parse_optional_size("18446744073709551616"), None);
}

#[test]
fn device_name_pattern() {
    assert_eq!(device_index("zram0"), Some(0));
    assert_eq!(device_index("zram10"), Some(10));
    assert_eq!(device_index("zram"), None);
    assert_eq!(device_index("zramx"), None);
    assert_eq!(device_index("swap0"), None);
    assert_eq!(device_index("zram5x"), None);
}

#[test]
fn disksize_formula() {
    // a quarter of 1000 MB is 250 MB, uncapped
    let f = Fraction { num: 25, den: 100 };
    assert_eq!(compute_disksize(&f, 1000, &None), 250 * 1048576);
    // the fractional megabyte product truncates before the final multiply
    let third = Fraction { num: 1, den: 3 };
    assert_eq!(compute_disksize(&third, 1000, &None), 333 * 1048576);
    // the cap applies in whole megabytes
    assert_eq!(compute_disksize(&f, 1000, &Some(100)), 100 * 1048576);
    assert_eq!(compute_disksize(&f, 1000, &Some(250)), 250 * 1048576);
    assert_eq!(compute_disksize(&f, 1000, &Some(251)), 250 * 1048576);
}

#[test]
fn memory_limit_boundary() {
    // equal memory keeps the device; one more megabyte drops it
    assert!(include_device(&Some(512), 512));
    assert!(!include_device(&Some(512), 513));
    assert!(include_device(&None, u64::MAX));

    let conf = "[zram0]\nhost-memory-limit=512\n";
    let devices = read_all_devices(Some(conf), 512).unwrap();
    assert_eq!(devices.len(), 1);
    let devices = read_all_devices(Some(conf), 513).unwrap();
    assert_eq!(devices.len(), 0);
}

#[test]
fn memory_limit_none_is_unlimited() {
    let conf = "[zram0]\nhost-memory-limit=none\n";
    let devices = read_all_devices(Some(conf), u64::MAX / 2).unwrap();
    assert_eq!(devices.len(), 1);
    let conf = "[zram0]\nmemory-limit=none\n";
    let devices = read_all_devices(Some(conf), u64::MAX / 2).unwrap();
    assert_eq!(devices.len(), 1);
}

#[test]
fn non_zram_sections_are_ignored() {
    let conf = "[foo]\nzram-fraction=0.5\n[zram1]\nzram-fraction=0.5\n[bar]\nmax-zram-size=1\n";
    let devices = read_all_devices(Some(conf), 100).unwrap();
    assert_eq!(devices.len(), 1);
    assert_eq!(devices[0].name, "zram1");
}

#[test]
fn zram_prefixed_section_with_bad_suffix_is_fatal() {
    let conf = "[zramfoo]\n";
    let err = read_all_devices(Some(conf), 100).unwrap_err();
    assert!(matches!(err, ConfigError::BadSectionName { .. }));
}

#[test]
fn malformed_value_is_fatal_and_names_the_key() {
    let conf = "[zram0]\nzram-fraction=bogus\n";
    let err = read_all_devices(Some(conf), 100).unwrap_err();
    match &err {
        ConfigError::BadValue {
            section,
            key,
            value,
        } => {
            assert_eq!(section, "zram0");
            assert_eq!(key, "zram-fraction");
            assert_eq!(value, "bogus");
        }
        other => panic!("unexpected error: {:?}", other),
    }
    let msg = err.message();
    assert!(msg.contains("zram-fraction"));
    assert!(msg.contains("bogus"));
    assert!(msg.contains("zram0"));
}

#[test]
fn missing_config_file_means_no_devices() {
    let devices = read_all_devices(None, 1000).unwrap();
    assert!(devices.is_empty());
}

#[test]
fn resolved_device_carries_defaults() {
    let conf = "[zram0]\n";
    let devices = read_all_devices(Some(conf), 1000).unwrap();
    assert_eq!(devices.len(), 1);
    let d = &devices[0];
    assert_eq!(d.name, "zram0");
    assert_eq!(d.host_memory_limit_mb, Some(2048));
    assert_eq!(d.zram_fraction, Fraction { num: 25, den: 100 });
    assert_eq!(d.max_zram_size_mb, Some(4096));
    assert_eq!(d.compression_algorithm, None);
    assert_eq!(d.disksize, 250 * 1048576);
    assert!(matches!(d.kind, DeviceKind::Swap { priority: 100 }));
}

#[test]
fn read_single_device_by_name() {
    let conf = "[zram0]\nzram-fraction=0.5\n[zram1]\ncompression-algorithm=zstd\n";
    let d = read_device(Some(conf), 1000, "zram1").unwrap().unwrap();
    assert_eq!(d.name, "zram1");
    assert_eq!(d.compression_algorithm.as_deref(), Some("zstd"));
    let none = read_device(Some(conf), 1000, "zram7").unwrap();
    assert!(none.is_none());
    let none = read_device(None, 1000, "zram0").unwrap();
    assert!(none.is_none());
}

#[test]
fn meminfo_parsing() {
    let content = "MemFree:  100 kB\nMemTotal:       1024000 kB\nSwapTotal: 5 kB\n";
    assert_eq!(get_total_memory_kb(content).unwrap(), 1024000);
    let missing = "MemFree: 100 kB\n";
    assert!(matches!(
        get_total_memory_kb(missing),
        Err(ConfigError::MemoryInfoUnavailable)
    ));
    let bad = "MemTotal: lots kB\n";
    assert!(matches!(
        get_total_memory_kb(bad),
        Err(ConfigError::MemoryInfoUnavailable)
    ));
}

#[test]
fn setup_mode_rejects_malformed_name_before_any_io() {
    let args = vec!["--setup-device".to_string(), "foo".to_string()];
    let err = select_mode(&args).unwrap_err();
    assert!(matches!(err, ConfigError::BadDeviceName { .. }));

    let args = vec!["--setup-device".to_string(), "zram5".to_string()];
    match select_mode(&args).unwrap() {
        CliMode::Setup { name } => assert_eq!(name, "zram5"),
        other => panic!("unexpected mode: {:?}", other),
    }

    let args = vec!["--setup-device".to_string()];
    assert!(matches!(
        select_mode(&args),
        Err(ConfigError::MissingDeviceName)
    ));
}

#[test]
fn argument_shapes() {
    assert!(matches!(
        select_mode(&Vec::new()),
        Err(ConfigError::BadArguments)
    ));
    let args = vec!["/run/units".to_string()];
    assert!(matches!(
        select_mode(&args).unwrap(),
        CliMode::Generate { .. }
    ));
    let args = vec!["/run/units".to_string(), "a".to_string(), "b".to_string()];
    assert!(matches!(
        select_mode(&args).unwrap(),
        CliMode::Generate { .. }
    ));
    let args = vec!["/run/units".to_string(), "a".to_string()];
    assert!(matches!(select_mode(&args), Err(ConfigError::BadArguments)));
    let args = vec![
        "--reset-device".to_string(),
        "zram2".to_string(),
    ];
    assert!(matches!(
        select_mode(&args).unwrap(),
        CliMode::Reset { .. }
    ));
}

#[test]
fn parse_device_directly() {
    let props = vec![
        ("host-memory-limit".to_string(), "none".to_string()),
        ("zram-fraction".to_string(), "0.5".to_string()),
    ];
    let d = parse_device(&Some("zram3".to_string()), &props, 1000)
        .unwrap()
        .unwrap();
    assert_eq!(d.name, "zram3");
    assert_eq!(d.host_memory_limit_mb, None);
    assert_eq!(d.disksize, 500 * 1048576);

    // the unnamed leading section is never a device
    let none = parse_device(&None, &Vec::new(), 1000).unwrap();
    assert!(none.is_none());
}

#[test]
fn unparseable_ini_is_fatal() {
    let err = read_all_devices(Some("[unclosed\n"), 1000).unwrap_err();
    assert!(matches!(err, ConfigError::Ini { .. }));
}

#[test]
fn empty_config_text_means_no_devices() {
    let devices = read_all_devices(Some(""), 1000).unwrap();
    assert!(devices.is_empty());
}

#[test]
fn duplicate_keys_first_value_wins() {
    let conf = "[zram0]\nzram-fraction=0.5\nzram-fraction=0.75\n";
    let devices = read_all_devices(Some(conf), 1000).unwrap();
    assert_eq!(devices.len(), 1);
    assert_eq!(devices[0].zram_fraction, Fraction { num: 5, den: 10 });
    assert_eq!(devices[0].disksize, 500 * 1048576);
}

#[test]
fn disksize_saturates_at_the_64_bit_limit() {
    let f = Fraction {
        num: u64::MAX,
        den: 1,
    };
    assert_eq!(compute_disksize(&f, u64::MAX, &None), u64::MAX);
    // the cap alone can already exceed what 64 bits hold in bytes
    let quarter = Fraction { num: 25, den: 100 };
    assert_eq!(
        compute_disksize(&quarter, u64::MAX, &Some(u64::MAX)),
        u64::MAX
    );
}

#[test]
fn device_defaults_via_new() {
    let d = Device::new("zram9".to_string());
    assert_eq!(d.host_memory_limit_mb, Some(2048));
    assert_eq!(d.zram_fraction, Fraction { num: 25, den: 100 });
    assert_eq!(d.max_zram_size_mb, Some(4096));
    assert_eq!(d.disksize, 0);
    assert!(d.is_swap());
}
