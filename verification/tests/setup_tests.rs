use zram_generator::config::Device;
use zram_generator::setup::{
    device_setup_plan, interpret_format_status, FormatOutcome, SetupError,
};

fn resolved_device(name: &str, algorithm: Option<&str>, disksize: u64) -> Device {
    let mut d = Device::new(name.to_string());
    d.compression_algorithm = algorithm.map(str::to_string);
    d.disksize = disksize;
    d
}

#[test]
fn setup_plan_paths_and_values() {
    let d = resolved_device("zram0", Some("zstd"), 500 * 1048576);
    let plan = device_setup_plan("/", &Some(d), "zram0").unwrap();

    let alg = plan.algorithm_write.expect("algorithm write expected");
    assert_eq!(alg.path, "/sys/block/zram0/comp_algorithm");
    assert_eq!(alg.contents, "zstd");

    assert_eq!(plan.disksize_write.path, "/sys/block/zram0/disksize");
    assert_eq!(plan.disksize_write.contents, "524288000");

    assert_eq!(plan.device_node, "/dev/zram0");
}

#[test]
fn setup_plan_without_algorithm() {
    let d = resolved_device("zram1", None, 1048576);
    let plan = device_setup_plan("/tmp/root/", &Some(d), "zram1").unwrap();
    assert!(plan.algorithm_write.is_none());
    assert_eq!(plan.disksize_write.path, "/tmp/root/sys/block/zram1/disksize");
    assert_eq!(plan.disksize_write.contents, "1048576");
    assert_eq!(plan.device_node, "/tmp/root/dev/zram1");
}

#[test]
fn setup_fails_when_device_unknown() {
    let err = device_setup_plan("/", &None, "zram3").unwrap_err();
    match &err {
        SetupError::DeviceNotFound { name } => assert_eq!(name, "zram3"),
        other => panic!("unexpected error: {:?}", other),
    }
    assert_eq!(err.message(), "Device zram3 not found");
}

#[test]
fn formatter_exit_codes() {
    // the size was planned for writing before the formatter ever runs;
    // an exit code of 8 then fails the setup, naming the code
    let d = resolved_device("zram0", None, 42 * 1048576);
    let plan = device_setup_plan("/", &Some(d), "zram0").unwrap();
    assert_eq!(plan.disksize_write.contents, "44040192");

    assert!(interpret_format_status(FormatOutcome::Exited { code: 0 }).is_ok());

    let err = interpret_format_status(FormatOutcome::Exited { code: 8 }).unwrap_err();
    assert!(matches!(err, SetupError::FormatFailed { code: 8 }));
    assert_eq!(err.message(), "mkswap failed with exit code 8");
}

#[test]
fn formatter_signals_and_spawn_failures() {
    let err = interpret_format_status(FormatOutcome::Signaled { signal: 9 }).unwrap_err();
    assert_eq!(err.message(), "mkswap terminated by signal 9");

    let err = interpret_format_status(FormatOutcome::SpawnFailed {
        message: "not found".to_string(),
    })
    .unwrap_err();
    assert_eq!(err.message(), "mkswap call failed: not found");
}
