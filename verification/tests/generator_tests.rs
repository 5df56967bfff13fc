use zram_generator::config::{read_all_devices, Device, DeviceKind};
use zram_generator::generator::{
    compressor_module_name, generation_plan, handle_device, hot_add_pending, max_device_index,
    missing_compressors, mount_unit_name, parse_hot_add_reply, parse_known_compressors,
    requested_compressors, zram_device_name, UnitAction,
};

#[test]
fn test_parse_known_compressors() {
    let data = "\
name         : zstd
driver       : zstd-scomp
module       : zstd
priority     : 0
refcnt       : 1
selftest     : passed
internal     : no
type         : scomp

name         : zstd
driver       : zstd-generic
module       : zstd
priority     : 0
refcnt       : 1
selftest     : passed
internal     : no
type         : compression

name         : ccm(aes)
driver       : ccm_base(ctr(aes-aesni),cbcmac(aes-aesni))
module       : ccm
priority     : 300
refcnt       : 2
selftest     : passed
internal     : no
type         : aead
async        : no
geniv        : <none>

name         : ctr(aes)
driver       : ctr(aes-aesni)
module       : kernel
priority     : 300
refcnt       : 2
selftest     : passed
internal     : no
type         : skcipher
";
    let mut got = parse_known_compressors(data);
    got.sort();
    let mut expected = vec!["zstd", "ccm(aes)", "ctr(aes)"];
    expected.sort();
    assert_eq!(got, expected);
}

#[test]
fn crypto_listing_duplicates_collapse() {
    let data = "name : zstd\nname : zstd\nname : ccm(aes)\n";
    let mut got = parse_known_compressors(data);
    got.sort();
    assert_eq!(got, vec!["ccm(aes)", "zstd"]);
}

#[test]
fn empty_crypto_listing_yields_nothing() {
    assert!(parse_known_compressors("").is_empty());
}

fn device(name: &str) -> Device {
    Device::new(name.to_string())
}

#[test]
fn swap_device_artifacts() {
    // one section, half of 1000 MB, no limits in the way
    let conf = "[zram0]\nzram-fraction=0.5\n";
    let devices = read_all_devices(Some(conf), 1000).unwrap();
    assert_eq!(devices.len(), 1);
    assert_eq!(devices[0].disksize, 500 * 1048576);

    let actions = handle_device(&devices[0], "/usr/lib/zram-generator");
    assert_eq!(actions.len(), 3);

    match &actions[0] {
        UnitAction::WriteFile { path, contents } => {
            assert_eq!(path, "systemd-zram-setup@zram0.service.d/bindsto-swap.conf");
            assert_eq!(
                contents,
                "# Automatically generated by /usr/lib/zram-generator\n\n[Unit]\nBindsTo=dev-%i.swap\n"
            );
        }
        other => panic!("unexpected action: {:?}", action_kind(other)),
    }
    match &actions[1] {
        UnitAction::WriteFile { path, contents } => {
            assert_eq!(path, "dev-zram0.swap");
            let expected = "# Automatically generated by /usr/lib/zram-generator\n\n\
[Unit]\n\
Description=Compressed Swap on /dev/zram0\n\
Documentation=man:zram-generator(8) man:zram-generator.conf(5)\n\
Requires=systemd-zram-setup@zram0.service\n\
After=systemd-zram-setup@zram0.service\n\
\n\
[Swap]\n\
What=/dev/zram0\n\
Priority=100\n";
            assert_eq!(contents, expected);
        }
        other => panic!("unexpected action: {:?}", action_kind(other)),
    }
    match &actions[2] {
        UnitAction::Symlink { target, link } => {
            assert_eq!(target, "../dev-zram0.swap");
            assert_eq!(link, "swap.target.wants/dev-zram0.swap");
        }
        other => panic!("unexpected action: {:?}", action_kind(other)),
    }
}

fn action_kind(a: &UnitAction) -> &'static str {
    match a {
        UnitAction::WriteFile { .. } => "write",
        UnitAction::Symlink { .. } => "symlink",
    }
}

#[test]
fn negative_swap_priority_is_rendered_with_its_sign() {
    let mut d = device("zram0");
    d.kind = DeviceKind::Swap { priority: -5 };
    let actions = handle_device(&d, "gen");
    match &actions[1] {
        UnitAction::WriteFile { contents, .. } => {
            assert!(contents.contains("Priority=-5\n"));
        }
        _ => panic!("expected a file write"),
    }
}

#[test]
fn excluded_device_produces_nothing() {
    let conf = "[zram0]\nhost-memory-limit=512\n";
    let devices = read_all_devices(Some(conf), 1024).unwrap();
    assert!(devices.is_empty());
}

#[test]
fn mount_device_artifacts() {
    let mut d = device("zram2");
    d.kind = DeviceKind::Mount {
        path: "/var/compressed".to_string(),
    };
    let actions = handle_device(&d, "gen");
    assert_eq!(actions.len(), 3);
    match &actions[0] {
        UnitAction::WriteFile { path, contents } => {
            assert_eq!(path, "systemd-zram-setup@zram2.service.d/bindsto-mount.conf");
            assert_eq!(
                contents,
                "# Automatically generated by gen\n\n[Unit]\nBindsTo=var-compressed.mount\n"
            );
        }
        _ => panic!("expected a file write"),
    }
    match &actions[1] {
        UnitAction::WriteFile { path, contents } => {
            assert_eq!(path, "var-compressed.mount");
            assert!(contents.contains("Description=Compressed Storage on /dev/zram2\n"));
            assert!(contents.contains("[Mount]\nWhat=/dev/zram2\nWhere=\"/var/compressed\"\n"));
        }
        _ => panic!("expected a file write"),
    }
    match &actions[2] {
        UnitAction::Symlink { target, link } => {
            assert_eq!(target, "../var-compressed.mount");
            assert_eq!(link, "local-fs.target.wants/var-compressed.mount");
        }
        _ => panic!("expected a symlink"),
    }
}

#[test]
fn whole_run_plan_keeps_device_order() {
    let conf = "[zram0]\n[zram1]\n";
    let devices = read_all_devices(Some(conf), 1000).unwrap();
    let plan = generation_plan(&devices, "gen");
    assert_eq!(plan.len(), 6);
    match &plan[0] {
        UnitAction::WriteFile { path, .. } => {
            assert_eq!(path, "systemd-zram-setup@zram0.service.d/bindsto-swap.conf");
        }
        _ => panic!("expected a file write"),
    }
    match &plan[4] {
        UnitAction::WriteFile { path, .. } => assert_eq!(path, "dev-zram1.swap"),
        _ => panic!("expected a file write"),
    }
    assert!(generation_plan(&Vec::new(), "gen").is_empty());
}

#[test]
fn mount_unit_names() {
    assert_eq!(mount_unit_name("/var/compressed"), "var-compressed.mount");
    assert_eq!(mount_unit_name("/srv"), "srv.mount");
    assert_eq!(mount_unit_name("/a/b/c"), "a-b-c.mount");
}

#[test]
fn device_count_polling() {
    // two configured devices: the generator waits for index 1
    let conf = "[zram0]\n[zram1]\n";
    let devices = read_all_devices(Some(conf), 1000).unwrap();
    assert_eq!(devices.len(), 2);
    let max = max_device_index(&devices);
    assert_eq!(max, 1);
    assert_eq!(zram_device_name(max), "zram1");

    // the kernel reports index 0: keep polling; index 1: done
    assert_eq!(parse_hot_add_reply("0\n"), Some(0));
    assert!(hot_add_pending(0, max));
    assert_eq!(parse_hot_add_reply("1\n"), Some(1));
    assert!(!hot_add_pending(1, max));
    // a reply that is not a number is fatal
    assert_eq!(parse_hot_add_reply("nonsense\n"), None);
}

#[test]
fn max_index_over_unordered_names() {
    let devices = vec![device("zram3"), device("zram11"), device("zram7")];
    assert_eq!(max_device_index(&devices), 11);
    assert_eq!(max_device_index(&Vec::new()), 0);
}

#[test]
fn compressor_module_requests() {
    let mut a = device("zram0");
    a.compression_algorithm = Some("zstd".to_string());
    let mut b = device("zram1");
    b.compression_algorithm = Some("lzo".to_string());
    let mut c = device("zram2");
    c.compression_algorithm = Some("zstd".to_string());
    let d = device("zram3");
    let devices = vec![a, b, c, d];

    let mut requested = requested_compressors(&devices);
    requested.sort();
    assert_eq!(requested, vec!["lzo", "zstd"]);

    let known = vec!["zstd".to_string(), "ccm(aes)".to_string()];
    let requested = requested_compressors(&devices);
    let missing = missing_compressors(&requested, &known);
    assert_eq!(missing, vec!["lzo"]);
    assert_eq!(compressor_module_name("lzo"), "crypto-lzo");
}
