use elan_haptune::device::Device;
use elan_haptune::error::{Error, OsError, OsErrorKind};
use elan_haptune::opening::{advance, begin, Action, Event, NodeInfo, RawInfo};

fn touchpad() -> Device {
    Device {
        path: "/dev/hidraw3".to_string(),
        selector: "sysfs:/devices/p".to_string(),
        name: "ELAN2703:00 04F3:323B".to_string(),
        bus: 0x18,
        vendor_id: "04f3".to_string(),
        product_id: "323b".to_string(),
        physical_path: "/sys/devices/p".to_string(),
        support: "identity_check_required",
        sys_device: "/sys/devices/p/0018:04F3:323B.0001".to_string(),
        devnum: (241 << 8) | 3,
    }
}

fn failure(kind: OsErrorKind) -> OsError {
    OsError {
        kind,
        detail: "it went wrong".to_string(),
    }
}

fn says(action: Result<Action, Error>) -> (&'static str, String, u8) {
    let error = action.unwrap_err();
    (error.kind, error.message, error.exit_code)
}

#[test]
fn a_device_is_locked_before_its_node_is_opened_and_checked_before_it_is_used() {
    let device = touchpad();
    assert!(matches!(begin(&device).unwrap(), Action::OpenDirectory(path) if path == "/sys/devices/p"));
    let next = |event: Event| advance(&device, &event).unwrap();
    assert!(matches!(next(Event::DirectoryOpened(Ok(()))), Action::Lock));
    assert!(matches!(next(Event::Locked(Ok(()))), Action::OpenNode(path) if path == "/dev/hidraw3"));
    assert!(matches!(next(Event::NodeOpened(Ok(()))), Action::Inspect));
    let info = NodeInfo {
        is_char_device: true,
        rdev: (241 << 8) | 3,
    };
    assert!(matches!(
        next(Event::Inspected(Ok(info))),
        Action::Resolve(path) if path == "/sys/dev/char/241:3/device"
    ));
    assert!(matches!(
        next(Event::Resolved(Ok(device.sys_device.clone()))),
        Action::Identify
    ));
    let raw = RawInfo {
        bus: 0x18,
        vendor: 0x04f3,
        product: 0x323b,
    };
    assert!(matches!(next(Event::Identified(Ok(raw))), Action::Use));
}

#[test]
fn an_unsupported_device_is_not_touched() {
    let mut device = touchpad();
    device.support = "unsupported";
    assert_eq!(
        says(begin(&device)),
        (
            "unsupported",
            "/dev/hidraw3 is outside the ELAN2703 I2C profile".to_string(),
            5
        )
    );
}

#[test]
fn a_device_that_changed_is_not_used() {
    let device = touchpad();
    for info in [
        NodeInfo {
            is_char_device: false,
            rdev: (241 << 8) | 3,
        },
        NodeInfo {
            is_char_device: true,
            rdev: (241 << 8) | 4,
        },
    ] {
        assert_eq!(
            says(advance(&device, &Event::Inspected(Ok(info)))),
            ("unsupported", "device node changed during selection".to_string(), 5)
        );
    }
    assert_eq!(
        says(advance(&device, &Event::Resolved(Ok("/sys/devices/p/other".to_string())))),
        ("unsupported", "HID device changed during selection".to_string(), 5)
    );
    for raw in [
        RawInfo {
            bus: 3,
            vendor: 0x04f3,
            product: 0x323b,
        },
        RawInfo {
            bus: 0x18,
            vendor: -1,
            product: 0x323b,
        },
        RawInfo {
            bus: 0x18,
            vendor: 0x04f3,
            product: 0x323c,
        },
    ] {
        assert_eq!(
            says(advance(&device, &Event::Identified(Ok(raw)))),
            (
                "unsupported",
                "opened device has an unexpected bus/VID/PID".to_string(),
                5
            )
        );
    }
}

#[test]
fn failures_of_the_system_say_what_was_being_done() {
    let device = touchpad();
    for (event, message) in [
        (
            Event::DirectoryOpened(Err(failure(OsErrorKind::NotFound))),
            "open physical device for locking: it went wrong",
        ),
        (
            Event::Locked(Err(failure(OsErrorKind::Other))),
            "lock physical device: it went wrong",
        ),
        (
            Event::Inspected(Err(failure(OsErrorKind::Other))),
            "stat hidraw descriptor: it went wrong",
        ),
        (
            Event::Resolved(Err(failure(OsErrorKind::NotFound))),
            "recheck HID sysfs identity: it went wrong",
        ),
        (
            Event::Identified(Err(failure(OsErrorKind::Other))),
            "HIDIOCGRAWINFO: it went wrong",
        ),
    ] {
        assert_eq!(says(advance(&device, &event)), ("io", message.to_string(), 1));
    }
    assert_eq!(
        says(advance(
            &device,
            &Event::NodeOpened(Err(failure(OsErrorKind::PermissionDenied)))
        )),
        ("permission", "/dev/hidraw3: it went wrong".to_string(), 1)
    );
}

#[test]
fn a_lock_that_is_held_is_reported_as_busy() {
    assert_eq!(
        says(advance(
            &touchpad(),
            &Event::Locked(Err(failure(OsErrorKind::WouldBlock)))
        )),
        (
            "busy",
            "another elan-haptune process holds this device; retry when it exits".to_string(),
            1
        )
    );
}
