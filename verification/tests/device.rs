use elan_haptune::device::{
    attribute, describe, discover, hid_id, parent, HidrawEntry, Listing, SysDevice,
};
use elan_haptune::devnum::sysfs_link_text;
use elan_haptune::error::{OsError, OsErrorKind};

const TOUCHPAD: &str = "DRIVER=i2c_hid\nHID_ID=0018:000004F3:0000323B\nHID_NAME=ELAN2703:00 04F3:323B\n";

fn entry(file_name: &str, path: &str, uevent: &str, dev: &str) -> HidrawEntry {
    HidrawEntry {
        file_name: file_name.to_string(),
        device: Ok(SysDevice {
            path: path.to_string(),
            uevent: Ok(uevent.to_string()),
        }),
        dev: Ok(dev.to_string()),
    }
}

fn failure(kind: OsErrorKind) -> OsError {
    OsError {
        kind,
        detail: "it went wrong".to_string(),
    }
}

#[test]
fn a_node_is_described_by_what_sysfs_says() {
    let device = describe(&entry(
        "hidraw2",
        "/sys/devices/platform/i2c-ELAN2703:00/0018:04F3:323B.0003",
        TOUCHPAD,
        "241:2\n",
    ))
    .unwrap();
    assert_eq!(device.path, "/dev/hidraw2");
    assert_eq!(device.selector, "sysfs:/devices/platform/i2c-ELAN2703:00");
    assert_eq!(device.name, "ELAN2703:00 04F3:323B");
    assert_eq!(device.bus, 24);
    assert_eq!(device.vendor_id, "04f3");
    assert_eq!(device.product_id, "323b");
    assert_eq!(device.physical_path, "/sys/devices/platform/i2c-ELAN2703:00");
    assert_eq!(device.support, "identity_check_required");
    assert_eq!(
        device.sys_device,
        "/sys/devices/platform/i2c-ELAN2703:00/0018:04F3:323B.0003"
    );
    assert_eq!(device.devnum, (241 << 8) | 2);
}

#[test]
fn unknown_devices_are_described_as_unsupported() {
    let device = describe(&entry(
        "hidraw0",
        "/sys/devices/usb1/1-1/0003:046D:1.0001",
        "HID_ID=3:46d:1",
        "241:0",
    ))
    .unwrap();
    assert_eq!(device.support, "unsupported");
    assert_eq!(device.name, "");
    assert_eq!(device.vendor_id, "046d");
    assert_eq!(device.product_id, "0001");
    let device = describe(&entry(
        "hidraw0",
        "/sys/devices/x/y",
        "HID_ID=18:123456:323b\nHID_NAME=ELAN2703:00",
        "241:0",
    ))
    .unwrap();
    assert_eq!(device.vendor_id, "123456");
    assert_eq!(device.support, "unsupported");
}

#[test]
fn device_numbers_hold_both_numbers() {
    for (major, minor) in [
        (0u32, 0u32),
        (241, 2),
        (4095, 255),
        (4096, 256),
        (0x1234_5678, 0x9abc_def0),
        (u32::MAX, u32::MAX),
    ] {
        let device = describe(&entry(
            "hidraw0",
            "/sys/devices/x/y",
            TOUCHPAD,
            &format!("{major}:{minor}"),
        ))
        .unwrap();
        assert_eq!(
            sysfs_link_text(device.devnum),
            format!("/sys/dev/char/{major}:{minor}/device")
        );
    }
    let device = describe(&entry("hidraw0", "/sys/devices/x/y", TOUCHPAD, "4096:256")).unwrap();
    assert_eq!(device.devnum, (4096u64 << 32) | (256u64 << 12));
}

#[test]
fn selectors_outlast_renumbering() {
    let first = describe(&entry("hidraw1", "/sys/devices/p/0018:04F3:323B.0001", TOUCHPAD, "241:1"));
    let second = describe(&entry("hidraw9", "/sys/devices/p/0018:04F3:323B.0042", TOUCHPAD, "241:9"));
    assert_eq!(first.unwrap().selector, second.unwrap().selector);
}

#[test]
fn what_cannot_be_described_says_why() {
    let good = || entry("hidraw0", "/sys/devices/x/y", TOUCHPAD, "241:0");
    let says = |entry: HidrawEntry| {
        let error = describe(&entry).unwrap_err();
        assert_eq!(error.exit_code, 1);
        (error.kind, error.message)
    };
    let mut bad = good();
    bad.device = Err(failure(OsErrorKind::PermissionDenied));
    assert_eq!(
        says(bad),
        ("permission", "resolve HID sysfs device: it went wrong".to_string())
    );
    let mut bad = good();
    bad.device = Ok(SysDevice {
        path: "/sys/devices/x/y".to_string(),
        uevent: Err(failure(OsErrorKind::NotFound)),
    });
    assert_eq!(says(bad), ("io", "read HID identity: it went wrong".to_string()));
    let mut bad = good();
    bad.dev = Err(failure(OsErrorKind::Other));
    assert_eq!(
        says(bad),
        ("io", "read hidraw device number: it went wrong".to_string())
    );
    for (uevent, message) in [
        ("", "missing HID_ID in sysfs"),
        ("HID_NAME=x", "missing HID_ID in sysfs"),
        ("HID_ID=1:2:3:4", "invalid HID_ID in sysfs"),
        ("HID_ID=1:2:", "invalid HID_ID in sysfs"),
        ("HID_ID=1:2:100000000", "invalid HID_ID in sysfs"),
        ("HID_ID=1:2:-3", "invalid HID_ID in sysfs"),
    ] {
        assert_eq!(
            says(entry("hidraw0", "/sys/devices/x/y", uevent, "241:0")),
            ("protocol", message.to_string())
        );
    }
    for (dev, message) in [
        ("241", "invalid sysfs device number"),
        ("", "invalid sysfs device number"),
        ("x:1", "invalid device major"),
        (":1", "invalid device major"),
        ("1:x", "invalid device minor"),
        ("1:2:3", "invalid device minor"),
        ("1: 2", "invalid device minor"),
        ("4294967296:0", "invalid device major"),
    ] {
        assert_eq!(
            says(entry("hidraw0", "/sys/devices/x/y", TOUCHPAD, dev)),
            ("protocol", message.to_string())
        );
    }
    assert_eq!(
        says(entry("hidraw0", "/", TOUCHPAD, "241:0")),
        ("protocol", "HID device has no physical parent".to_string())
    );
}

#[test]
fn identities_are_hexadecimal_and_taken_from_the_first_line() {
    assert_eq!(hid_id("HID_ID=+18:4F3:323b\r\nHID_ID=1:2:3").unwrap(), (0x18, 0x4f3, 0x323b));
    assert_eq!(hid_id("HID_ID=ffffffff:0:0").unwrap(), (u32::MAX, 0, 0));
}

#[test]
fn attributes_are_looked_up_by_their_whole_key() {
    let text = "A=1\nAB=2=3\nnone\nA=4";
    assert_eq!(attribute(text, "A").as_deref(), Some("1"));
    assert_eq!(attribute(text, "AB").as_deref(), Some("2=3"));
    assert_eq!(attribute(text, "none"), None);
    assert_eq!(attribute(text, "C"), None);
}

#[test]
fn parents_are_found_by_the_last_slash() {
    assert_eq!(parent("/a/b").as_deref(), Some("/a"));
    assert_eq!(parent("/a").as_deref(), Some("/"));
    assert_eq!(parent("a").as_deref(), Some(""));
    assert_eq!(parent("/"), None);
    assert_eq!(parent(""), None);
}

#[test]
fn devices_are_listed_in_the_order_of_their_paths() {
    let listing: Listing = Ok(vec![
        Ok(entry("hidraw2", "/sys/devices/b/1", TOUCHPAD, "241:2")),
        Ok(entry("hidraw10", "/sys/devices/c/1", TOUCHPAD, "241:10")),
        Ok(entry("hidraw1", "/sys/devices/a/1", TOUCHPAD, "241:1")),
        Ok(entry("hidraw", "/sys/devices/d/1", TOUCHPAD, "241:9")),
    ]);
    let paths: Vec<String> = discover(&listing).unwrap().into_iter().map(|d| d.path).collect();
    assert_eq!(paths, ["/dev/hidraw", "/dev/hidraw1", "/dev/hidraw10", "/dev/hidraw2"]);
}

#[test]
fn a_missing_listing_is_empty_and_a_broken_one_fails() {
    let none: Listing = Err(failure(OsErrorKind::NotFound));
    assert!(discover(&none).unwrap().is_empty());
    let empty: Listing = Ok(vec![]);
    assert!(discover(&empty).unwrap().is_empty());
    let denied: Listing = Err(failure(OsErrorKind::PermissionDenied));
    let error = discover(&denied).unwrap_err();
    assert_eq!(error.kind, "permission");
    assert_eq!(error.message, "/sys/class/hidraw: it went wrong");
    let broken: Listing = Ok(vec![
        Ok(entry("hidraw2", "/sys/devices/b/1", TOUCHPAD, "241:2")),
        Err(failure(OsErrorKind::Other)),
        Ok(entry("hidraw1", "/sys/devices/b/1", "", "241:2")),
    ]);
    assert_eq!(
        discover(&broken).unwrap_err().message,
        "enumerate hidraw: it went wrong"
    );
    let broken: Listing = Ok(vec![
        Ok(entry("hidraw1", "/sys/devices/b/1", "", "241:2")),
        Err(failure(OsErrorKind::Other)),
    ]);
    assert_eq!(discover(&broken).unwrap_err().message, "missing HID_ID in sysfs");
}
