use elan_haptune::command::{change_device, execute, read_device, respond, Command, Output};
use elan_haptune::device::{hid_id, known_model, Device, HidrawEntry, Listing, SysDevice};
use elan_haptune::document::Data;
use elan_haptune::elan::{Settings, State, Update, REGS};
use elan_haptune::error::{Error, OsError, OsErrorKind};
use elan_haptune::json::Json;
use elan_haptune::opener::Opener;
use elan_haptune::protocol::{decode, exact_length, feature_count, FeatureIo, Protocol, Record};
use elan_haptune::selection::select_from;
use elan_haptune::update::apply;
use std::cell::{Cell, RefCell};
use std::collections::BTreeMap;
use std::rc::Rc;

// A stateful, strict report-level device simulator. Values survive requests;
// failures can happen before or after mutation, and reads are independently gated.
struct Pad {
    registers: BTreeMap<u16, u16>,
    pending: Option<u16>,
    writes: Vec<(u16, u16)>,
    fail_writes: Vec<usize>,
    fail_after_apply: bool,
    corrupt_write: Option<usize>,
    fail_reads_after_write: bool,
    short_query: bool,
    read_count: usize,
    settled: usize,
    external_change: Option<(usize, u16, u16)>,
}

impl Pad {
    fn new(state: [u16; 4]) -> Self {
        let mut registers: BTreeMap<_, _> = REGS.into_iter().zip(state).collect();
        registers.extend([
            (0x0101, 0x0130),
            (0x0103, 0x1300),
            (0x03ab, 0x4040),
            (0x03a9, 80),
            (0x03aa, 60),
        ]);
        Self {
            registers,
            pending: None,
            writes: Vec::new(),
            fail_writes: Vec::new(),
            fail_after_apply: false,
            corrupt_write: None,
            fail_reads_after_write: false,
            short_query: false,
            read_count: 0,
            settled: 0,
            external_change: None,
        }
    }
    fn state(&self) -> State {
        State(REGS.map(|r| self.registers[&r]))
    }
}

impl FeatureIo for Pad {
    fn exchanges(&self) -> Record {
        unreachable!()
    }
    fn settle(&mut self) {
        self.settled += 1;
    }
    fn set_feature(&mut self, report: &mut [u8; 5]) -> Result<usize, Error> {
        assert_eq!(report[0], 13);
        if report[1..3] == [5, 3] {
            let reg = u16::from_le_bytes([report[3], report[4]]);
            assert!(
                self.registers.contains_key(&reg),
                "unexpected query {reg:04x}"
            );
            self.pending = Some(reg);
            return Ok(if self.short_query { 4 } else { 5 });
        }
        let reg = u16::from_le_bytes([report[1], report[2]]);
        let value = u16::from_le_bytes([report[3], report[4]]);
        assert!(REGS.contains(&reg), "unexpected mutation {reg:04x}");
        self.writes.push((reg, value));
        let fail = self.fail_writes.contains(&self.writes.len());
        if !fail || self.fail_after_apply {
            self.registers.insert(
                reg,
                if self.corrupt_write == Some(self.writes.len()) {
                    value + 1
                } else {
                    value
                },
            );
            // Check intermediate hysteresis, not just the final state.
            let s = self.state();
            assert!(
                s.0[1] < s.0[0] && s.0[2] < s.0[0],
                "unsafe intermediate state: {s:?}"
            );
        }
        if fail {
            return Err(Error::protocol("injected write failure"));
        }
        Ok(5)
    }
    fn get_feature(&mut self, report: &mut [u8; 5]) -> Result<usize, Error> {
        self.read_count += 1;
        if let Some((at, reg, value)) = self.external_change {
            if at == self.read_count {
                self.registers.insert(reg, value);
            }
        }
        assert_eq!(*report, [13, 0, 0, 0, 0]);
        let reg = self.pending.take().expect("GET without query selection");
        if self.fail_reads_after_write && !self.writes.is_empty() {
            return Err(Error::protocol("injected disconnected device"));
        }
        let [rl, rh] = reg.to_le_bytes();
        let [vl, vh] = self.registers[&reg].to_le_bytes();
        *report = [13, rl, rh, vl, vh];
        Ok(5)
    }
}

#[test]
fn decode_requires_exact_length_report_and_both_address_bytes() {
    assert_eq!(
        decode(0x03a2, &[13, 0xa2, 3, 0x34, 0x12], 5).unwrap(),
        0x1234
    );
    for (bytes, count) in [
        ([13, 0xa2, 3, 0, 0], 4),
        ([13, 0xa2, 3, 0, 0], 6),
        ([12, 0xa2, 3, 0, 0], 5),
        ([13, 0xa3, 3, 0, 0], 5),
        ([13, 0xa2, 4, 0, 0], 5),
    ] {
        assert!(decode(0x03a2, &bytes, count).is_err());
    }
}

#[test]
fn external_changes_stop_updates_and_are_not_blindly_rolled_back() {
    for at in [5, 10] {
        let mut io = Protocol(Pad::new([150, 125, 60, 0x100]));
        io.0.external_change = Some((at, 0x03a1, 0x102));
        let report = apply(&mut io, &threshold_update(Some(120), Some(95), None), false).unwrap();
        assert_eq!(report.error.unwrap().kind, "concurrent_change");
        assert_eq!(io.0.registers[&0x03a1], 0x102);
        if at == 5 {
            assert!(report.rollback.is_none());
            assert!(io.0.writes.is_empty());
        } else {
            assert_eq!(report.rollback.unwrap().status, "incomplete");
            assert_eq!(io.0.writes, [(0x03a3, 95)]);
        }
    }
}

#[test]
fn haptics_rollback_does_not_overwrite_trackpoint_bit_changed_externally() {
    let mut io = Protocol(Pad::new([150, 125, 60, 0x100]));
    io.0.external_change = Some((9, 0x03a1, 0x0002));
    let report = apply(
        &mut io,
        &Update {
            thresholds: [None; 3],
            haptics: Some(false),
        },
        false,
    )
    .unwrap();
    assert_eq!(report.status, "failed");
    assert_eq!(report.rollback.unwrap().status, "incomplete");
    assert_eq!(io.0.registers[&0x03a1], 2);
    assert_eq!(io.0.writes.len(), 1);
}

fn threshold_update(p: Option<u16>, r: Option<u16>, d: Option<u16>) -> Update {
    Update {
        thresholds: [p, r, d],
        haptics: None,
    }
}

#[test]
fn identity_checks_both_exact_values_without_mutations() {
    let mut io = Protocol(Pad::new([150, 125, 125, 0x101]));
    io.check_identity().unwrap();
    for (reg, bad) in [(0x0101, 0x000e), (0x0103, 0x1301), (0x0103, 0x1400)] {
        let original = io.0.registers.insert(reg, bad).unwrap();
        assert_eq!(io.check_identity().unwrap_err().exit_code, 5);
        io.0.registers.insert(reg, original);
    }
    io.0.short_query = true;
    assert_eq!(io.check_identity().unwrap_err().kind, "protocol");
    assert!(io.0.writes.is_empty());
}

#[test]
fn dry_run_plans_queries_only_and_preserves_independent_drag() {
    let mut io = Protocol(Pad::new([150, 125, 60, 0xa303]));
    let before = io.0.registers.clone();
    let report = apply(&mut io, &threshold_update(Some(120), Some(95), None), true).unwrap();
    assert_eq!(report.status, "dry_run");
    assert_eq!(
        report.planned.iter().map(|c| c.setting).collect::<Vec<_>>(),
        ["release_threshold", "press_threshold"]
    );
    assert_eq!(report.requested.drag_release_threshold, 60);
    assert_eq!(io.0.registers, before);
    assert!(io.0.writes.is_empty());
}

#[test]
fn complete_update_validated_before_any_write_including_unchanged_drag() {
    let mut io = Protocol(Pad::new([150, 125, 125, 0x101]));
    assert!(apply(&mut io, &threshold_update(Some(120), Some(95), None), false).is_err());
    assert!(io.0.writes.is_empty());
    assert!(apply(&mut io, &Update::default(), false).is_err());
    for update in [
        threshold_update(Some(119), None, None),
        threshold_update(None, Some(155), None),
        threshold_update(None, None, Some(0)),
        threshold_update(Some(65535), None, None),
    ] {
        assert!(apply(&mut io, &update, false).is_err());
    }
    assert!(io.0.writes.is_empty());
}

#[test]
fn lower_releases_before_press_and_raise_press_before_releases() {
    let mut io = Protocol(Pad::new([150, 125, 125, 0x101]));
    let update = threshold_update(Some(120), Some(95), Some(100));
    assert_eq!(apply(&mut io, &update, false).unwrap().status, "applied");
    assert_eq!(io.0.writes, [(0x03a3, 95), (0x03a4, 100), (0x03a2, 120)]);
    io.0.writes.clear();
    let update = threshold_update(Some(192), Some(154), Some(125));
    assert_eq!(apply(&mut io, &update, false).unwrap().status, "applied");
    assert_eq!(io.0.writes, [(0x03a2, 192), (0x03a3, 154), (0x03a4, 125)]);
}

#[test]
fn all_policy_endpoint_transitions_preserve_hysteresis() {
    for p in [120, 150, 192] {
        for r in [95, 125, 154] {
            for d in [60, 100, 125] {
                if r >= p || d >= p {
                    continue;
                }
                for np in [120, 150, 192] {
                    for nr in [95, 125, 154] {
                        for nd in [60, 100, 125] {
                            if nr >= np || nd >= np {
                                continue;
                            }
                            let mut io = Protocol(Pad::new([p, r, d, 0xa303]));
                            let result = apply(
                                &mut io,
                                &threshold_update(Some(np), Some(nr), Some(nd)),
                                false,
                            )
                            .unwrap();
                            assert!(result.error.is_none());
                            assert_eq!(io.0.state(), State([np, nr, nd, 0xa303]));
                        }
                    }
                }
            }
        }
    }
}

#[test]
fn haptics_preserves_every_unrelated_control_bit_and_register() {
    for flags in [0x0002, 0xffff, 0x8003, 0x0000, 0x0100] {
        for on in [true, false] {
            let mut io = Protocol(Pad::new([150, 125, 60, flags]));
            let before = io.0.registers.clone();
            let update = Update {
                thresholds: [None; 3],
                haptics: Some(on),
            };
            let report = apply(&mut io, &update, false).unwrap();
            assert!(report.error.is_none());
            let desired = (flags & !0x100) | if on { 0x100 } else { 0 };
            assert_eq!(io.0.registers[&0x03a1], desired);
            for (reg, value) in before {
                if reg != 0x03a1 {
                    assert_eq!(io.0.registers[&reg], value);
                }
            }
        }
    }
}

#[test]
fn no_op_issues_no_parameter_writes() {
    let mut io = Protocol(Pad::new([120, 95, 60, 0x100]));
    let report = apply(&mut io, &threshold_update(Some(120), Some(95), None), false).unwrap();
    assert_eq!(report.status, "unchanged");
    assert!(io.0.writes.is_empty());
}

#[test]
fn failures_at_each_write_before_and_after_mutation_restore_original_in_safe_order() {
    for initial in [[150, 125, 125, 0xa303], [120, 95, 60, 0xa303]] {
        let target = if initial[0] == 150 {
            [120, 95, 60]
        } else {
            [192, 154, 125]
        };
        for failure in 1..=3 {
            for after in [true, false] {
                let mut io = Protocol(Pad::new(initial));
                io.0.fail_writes = vec![failure];
                io.0.fail_after_apply = after;
                let report = apply(
                    &mut io,
                    &threshold_update(Some(target[0]), Some(target[1]), Some(target[2])),
                    false,
                )
                .unwrap();
                assert_eq!(report.status, "failed");
                assert_eq!(report.attempted.len(), failure);
                assert_eq!(report.verified.len(), failure - 1);
                assert_eq!(report.rollback.unwrap().status, "restored");
                assert_eq!(io.0.state(), State(initial));
            }
        }
    }
}

#[test]
fn readback_mismatch_triggers_verified_rollback() {
    let mut io = Protocol(Pad::new([150, 125, 60, 0x100]));
    io.0.corrupt_write = Some(1);
    let report = apply(&mut io, &threshold_update(Some(120), Some(95), None), false).unwrap();
    assert_eq!(report.error.unwrap().kind, "verification");
    assert_eq!(report.rollback.unwrap().status, "restored");
    assert_eq!(io.0.state(), State([150, 125, 60, 0x100]));
}

#[test]
fn rollback_failure_and_unknown_state_are_not_reported_as_success() {
    let mut io = Protocol(Pad::new([150, 125, 125, 0x100]));
    io.0.fail_writes = vec![3, 4];
    let report = apply(
        &mut io,
        &threshold_update(Some(120), Some(95), Some(60)),
        false,
    )
    .unwrap();
    assert_eq!(report.status, "failed");
    let rollback = report.rollback.unwrap();
    assert_eq!(rollback.status, "incomplete");
    assert!(rollback.error.is_some());
    assert_eq!(rollback.attempted.len(), 1);
    assert!(rollback.verified.is_empty());
    assert!(report.observed_after.is_some());

    let mut io = Protocol(Pad::new([150, 125, 125, 0x100]));
    io.0.fail_reads_after_write = true;
    let report = apply(
        &mut io,
        &threshold_update(Some(120), Some(95), Some(60)),
        false,
    )
    .unwrap();
    assert_eq!(report.status, "failed");
    assert_eq!(report.rollback.unwrap().status, "unknown");
    assert!(report.observed_after.is_none());
    assert_eq!(
        io.0.writes.len(),
        1,
        "no blind rollback writes when state is unreadable"
    );
}

fn candidate(id: &str) -> Device {
    Device {
        path: format!("/dev/{id}"),
        selector: format!("sysfs:/devices/{id}"),
        name: "ELAN2703:00 04F3:323B".to_string(),
        bus: 0x18,
        vendor_id: "04f3".to_string(),
        product_id: "323b".to_string(),
        physical_path: format!("/sys/devices/{id}"),
        support: "identity_check_required",
        sys_device: String::new(),
        devnum: 0,
    }
}

fn open_simulator(_: &Device) -> Result<Protocol<Pad>, Error> {
    Ok(Protocol(Pad::new([150, 125, 60, 0x100])))
}

#[test]
fn selection_distinguishes_no_match_ambiguity_and_explicit_unsupported() {
    let code =
        |result: Result<(Device, Protocol<Pad>), Error>| result.err().unwrap().exit_code;
    assert_eq!(code(select_from(vec![], None, &None, &mut Opener::new(open_simulator))), 3);
    assert_eq!(
        code(select_from(
            vec![candidate("a"), candidate("b")],
            None,
            &None,
            &mut Opener::new(open_simulator)
        )),
        4
    );
    let (selected, _) = select_from(
        vec![candidate("a"), candidate("b")],
        Some("sysfs:/devices/b"),
        &None,
        &mut Opener::new(open_simulator),
    )
    .unwrap_or_else(|e| panic!("{e:?}"));
    assert_eq!(selected.selector, "sysfs:/devices/b");
    let mut unknown = candidate("a");
    unknown.support = "unsupported";
    assert_eq!(
        code(select_from(
            vec![unknown],
            Some("sysfs:/devices/a"),
            &None,
            &mut Opener::new(|_: &Device| -> Result<Protocol<Pad>, Error> {
                panic!("unknown devices must never be queried")
            })
        )),
        5
    );
    assert_eq!(
        code(select_from(
            vec![candidate("a"), candidate("a")],
            None,
            &None,
            &mut Opener::new(open_simulator)
        )),
        4
    );
}

#[test]
fn selection_checks_protocol_identity_and_never_hides_permission_or_read_failure() {
    let bad_identity = |_: &Device| {
        let mut pad = Pad::new([150, 125, 60, 0x100]);
        pad.registers.insert(0x0101, 0x000e);
        Ok(Protocol(pad))
    };
    assert_eq!(
        select_from(vec![candidate("a")], None, &None, &mut Opener::new(bad_identity))
            .err()
            .unwrap()
            .exit_code,
        3
    );
    assert_eq!(
        select_from(
            vec![candidate("a")],
            Some("sysfs:/devices/a"),
            &None,
            &mut Opener::new(bad_identity)
        )
        .err()
        .unwrap()
        .exit_code,
        5
    );
    for kind in ["permission", "protocol"] {
        let mut opener = Opener::new(|d: &Device| {
            if d.selector.ends_with('b') {
                Err(Error::new(1, kind, "injected failure"))
            } else {
                open_simulator(d)
            }
        });
        let error = select_from(
            vec![candidate("a"), candidate("b")],
            None,
            &None,
            &mut opener,
        )
        .err()
        .unwrap();
        assert_eq!(error.kind, kind);
        assert_eq!(error.exit_code, 1);
    }
}

#[test]
fn vendor_id_alone_never_means_supported() {
    assert!(known_model(0x18, 0x04f3, 0x323b, "ELAN2703:00 04F3:323B"));
    for (bus, vid, pid, name) in [
        (3, 0x04f3, 0x323b, "ELAN2703:00"),
        (0x18, 0x04f3, 0x2f75, "ELAN2513:00"),
        (0x18, 0x1234, 0x323b, "ELAN2703:00"),
        (0x18, 0x04f3, 0x323b, "Unknown"),
    ] {
        assert!(!known_model(bus, vid, pid, name));
    }
    assert_eq!(
        hid_id("HID_ID=0018:000004F3:0000323B\n").unwrap(),
        (24, 1267, 12859)
    );
    assert!(hid_id("HID_ID=1:2").is_err());
    assert!(hid_id("HID_ID=1:2:garbage").is_err());
}

#[test]
fn selection_reports_each_failure_in_its_own_words() {
    let message = |result: Result<(Device, Protocol<Pad>), Error>| {
        let error = result.err().unwrap();
        (error.kind, error.message, error.exit_code)
    };
    assert_eq!(
        message(select_from(vec![], None, &None, &mut Opener::new(open_simulator))),
        ("no_device", "no known-compatible device found".to_string(), 3)
    );
    assert_eq!(
        message(select_from(
            vec![candidate("a")],
            Some("sysfs:/devices/z"),
            &None,
            &mut Opener::new(open_simulator)
        )),
        ("no_device", "no hidraw device matches the selector".to_string(), 3)
    );
    assert_eq!(
        message(select_from(vec![candidate("a")], Some("hidraw0"), &None, &mut Opener::new(open_simulator))),
        (
            "invalid_request",
            "--device must be an absolute hidraw path or a sysfs: selector from list".to_string(),
            2
        )
    );
    let missing: Option<Result<String, OsError>> = Some(Err(OsError {
        kind: OsErrorKind::NotFound,
        detail: "No such file or directory (os error 2)".to_string(),
    }));
    assert_eq!(
        message(select_from(vec![candidate("a")], Some("/dev/x"), &missing, &mut Opener::new(open_simulator))),
        ("no_device", "device path not found: /dev/x".to_string(), 3)
    );
    let denied: Option<Result<String, OsError>> = Some(Err(OsError {
        kind: OsErrorKind::PermissionDenied,
        detail: "Permission denied (os error 13)".to_string(),
    }));
    assert_eq!(
        message(select_from(vec![candidate("a")], Some("/dev/x"), &denied, &mut Opener::new(open_simulator))),
        ("permission", "/dev/x: Permission denied (os error 13)".to_string(), 1)
    );
    assert_eq!(
        message(select_from(
            vec![candidate("a"), candidate("b")],
            None,
            &None,
            &mut Opener::new(open_simulator)
        )),
        (
            "ambiguous",
            "multiple known-compatible physical devices; use --device".to_string(),
            4
        )
    );
    assert_eq!(
        message(select_from(
            vec![candidate("a"), candidate("a")],
            None,
            &None,
            &mut Opener::new(open_simulator)
        )),
        (
            "ambiguous",
            "multiple candidate interfaces on one physical device; select an explicit hidraw path"
                .to_string(),
            4
        )
    );
}

#[test]
fn a_path_selects_the_node_that_it_resolves_to() {
    let mut second = candidate("a");
    second.path = "/dev/hidraw7".to_string();
    let resolved: Option<Result<String, OsError>> = Some(Ok("/dev/hidraw7".to_string()));
    let (selected, _) = select_from(
        vec![candidate("a"), second],
        Some("/dev/input/touchpad"),
        &resolved,
        &mut Opener::new(open_simulator),
    )
    .unwrap_or_else(|e| panic!("{e:?}"));
    assert_eq!(selected.path, "/dev/hidraw7");
}

// Takes down when it is opened and closed, and what was written to it by then.
struct Watched {
    pad: Pad,
    path: String,
    events: Rc<RefCell<Vec<String>>>,
}

impl Watched {
    fn open(pad: Pad, device: &Device, events: &Rc<RefCell<Vec<String>>>) -> Protocol<Watched> {
        events.borrow_mut().push(format!("open {}", device.path));
        Protocol(Watched {
            pad,
            path: device.path.clone(),
            events: events.clone(),
        })
    }
}

impl Drop for Watched {
    fn drop(&mut self) {
        let line = format!("close {} {:?}", self.path, self.pad.writes);
        self.events.borrow_mut().push(line);
    }
}

impl FeatureIo for Watched {
    fn exchanges(&self) -> Record {
        unreachable!()
    }
    fn settle(&mut self) {
        self.pad.settle();
    }
    fn set_feature(&mut self, report: &mut [u8; 5]) -> Result<usize, Error> {
        self.pad.set_feature(report)
    }
    fn get_feature(&mut self, report: &mut [u8; 5]) -> Result<usize, Error> {
        self.pad.get_feature(report)
    }
}

#[test]
fn only_candidates_are_opened_each_once_and_none_after_a_failure() {
    let events = Rc::new(RefCell::new(Vec::new()));
    let mut opener = Opener::new(|d: &Device| -> Result<Protocol<Watched>, Error> {
        if d.path == "/dev/c" {
            events.borrow_mut().push("open /dev/c".to_string());
            return Err(Error::new(1, "permission", "injected failure"));
        }
        let mut pad = Pad::new([150, 125, 60, 0x100]);
        if d.path == "/dev/b" {
            pad.registers.insert(0x0101, 0x000e);
        }
        Ok(Watched::open(pad, d, &events))
    });
    let mut unknown = candidate("u");
    unknown.support = "unsupported";
    let devices = vec![unknown, candidate("a"), candidate("b"), candidate("c"), candidate("d")];
    let error = select_from(devices, None, &None, &mut opener).err().unwrap();
    assert_eq!(error.kind, "permission");
    assert_eq!(error.message, "injected failure");
    assert_eq!(
        *events.borrow(),
        ["open /dev/a", "open /dev/b", "close /dev/b []", "open /dev/c", "close /dev/a []"]
    );
}

#[test]
fn commands_close_what_they_opened_and_only_updates_write() {
    let run = |command: Command| {
        let events = Rc::new(RefCell::new(Vec::new()));
        let mut opener = Opener::new(|d: &Device| -> Result<Protocol<Watched>, Error> {
            Ok(Watched::open(Pad::new([150, 125, 60, 0x100]), d, &events))
        });
        let (_, error) = execute(&command, &one_device(), &None, &mut opener).unwrap();
        assert!(error.is_none());
        events.take()
    };
    let untouched = ["open /dev/hidraw3", "close /dev/hidraw3 []"];
    assert_eq!(run(Command::Get { device: None }), untouched);
    let update = threshold_update(None, Some(95), None);
    assert_eq!(run(Command::Change { device: None, dry_run: true, update }), untouched);
    assert_eq!(
        run(Command::Change { device: None, dry_run: false, update }),
        ["open /dev/hidraw3", "close /dev/hidraw3 [(931, 95)]"]
    );
    assert!(run(Command::List).is_empty());
}

// Counts how many of its kind are open at the same time.
struct Held {
    pad: Pad,
    open: Rc<Cell<usize>>,
}

impl Drop for Held {
    fn drop(&mut self) {
        self.open.set(self.open.get() - 1);
    }
}

impl FeatureIo for Held {
    fn exchanges(&self) -> Record {
        unreachable!()
    }
    fn settle(&mut self) {
        self.pad.settle();
    }
    fn set_feature(&mut self, report: &mut [u8; 5]) -> Result<usize, Error> {
        self.pad.set_feature(report)
    }
    fn get_feature(&mut self, report: &mut [u8; 5]) -> Result<usize, Error> {
        self.pad.get_feature(report)
    }
}

#[test]
fn a_rejected_interface_is_closed_before_the_next_is_opened() {
    let open = Rc::new(Cell::new(0));
    let mut first = candidate("a");
    first.path = "/dev/hidraw0".to_string();
    let mut second = candidate("a");
    second.path = "/dev/hidraw1".to_string();
    let mut opener = Opener::new(|d: &Device| {
        if open.get() > 0 {
            return Err(Error::new(1, "busy", "held"));
        }
        open.set(open.get() + 1);
        let mut pad = Pad::new([150, 125, 60, 0x100]);
        if d.path == "/dev/hidraw0" {
            pad.registers.insert(0x0103, 0x1301);
        }
        Ok(Protocol(Held { pad, open: open.clone() }))
    });
    let (selected, io) = select_from(vec![first, second], None, &None, &mut opener)
        .unwrap_or_else(|e| panic!("{e:?}"));
    assert_eq!(selected.path, "/dev/hidraw1");
    assert_eq!(open.get(), 1);
    drop(io);
    assert_eq!(open.get(), 0);
}

fn sysfs_entry(file_name: &str, instance: &str) -> HidrawEntry {
    HidrawEntry {
        file_name: file_name.to_string(),
        device: Ok(SysDevice {
            path: format!("/sys/devices/pci0000:00/i2c-1/i2c-ELAN2703:00/{instance}"),
            uevent: Ok("HID_ID=0018:000004F3:0000323B\nHID_NAME=ELAN2703:00 04F3:323B\n".to_string()),
        }),
        dev: Ok("240:3\n".to_string()),
    }
}

fn one_device() -> Listing {
    Ok(vec![Ok(sysfs_entry("hidraw3", "0018:04F3:323B.0001"))])
}

fn value(json: &Json) -> serde_json::Value {
    match json {
        Json::Null => serde_json::Value::Null,
        Json::Bool(yes) => serde_json::Value::from(*yes),
        Json::Number(n) => serde_json::Value::from(*n),
        Json::Text(text) => serde_json::Value::from(text.as_str()),
        Json::List(items) => serde_json::Value::Array(items.iter().map(value).collect()),
        Json::Object(members) => serde_json::Value::Object(
            members.iter().map(|m| (m.key.clone(), value(&m.value))).collect(),
        ),
    }
}

fn document(output: Output) -> serde_json::Value {
    match output {
        Output::Document(json) => value(&json),
        other => panic!("no document: {other:?}"),
    }
}

fn words(output: Output) -> String {
    match output {
        Output::Words(text) => text,
        other => panic!("no words: {other:?}"),
    }
}

#[test]
fn nonexistent_explicit_path_is_no_match() {
    let path = "/dev/elan-haptune-test-nonexistent";
    let command = Command::Get { device: Some(path.to_string()) };
    let resolved = Some(Err(OsError {
        kind: OsErrorKind::NotFound,
        detail: "No such file or directory (os error 2)".to_string(),
    }));
    let result = execute(&command, &one_device(), &resolved, &mut Opener::new(open_simulator));
    let emission = respond(true, &command, result);
    assert_eq!(emission.exit_code, 3);
    let value = document(emission.output);
    assert_eq!(value["error"]["kind"], "no_device");
}

#[test]
fn list_is_sysfs_only_and_json_contains_support_boundaries() {
    let mut other = sysfs_entry("hidraw1", "0003:046D:C52B.0002");
    other.device = Ok(SysDevice {
        path: "/sys/devices/pci0000:00/usb1/1-2/0003:046D:C52B.0002".to_string(),
        uevent: Ok("HID_ID=0003:0000046D:0000C52B\nHID_NAME=Receiver\n".to_string()),
    });
    let listing: Listing = Ok(vec![Ok(sysfs_entry("hidraw3", "0018:04F3:323B.0001")), Ok(other)]);
    let command = Command::List;
    let mut opener = Opener::new(|_: &Device| -> Result<Protocol<Pad>, Error> {
        panic!("a listing opens nothing")
    });
    let result = execute(&command, &listing, &None, &mut opener);
    let emission = respond(true, &command, result);
    assert_eq!(emission.exit_code, 0);
    assert!(emission.diagnostic.is_none());
    let value = document(emission.output);
    assert_eq!(value["command"], "list");
    assert_eq!(value["data"]["devices"].as_array().unwrap().len(), 2);
    for d in value["data"]["devices"].as_array().unwrap() {
        assert!(d["selector"].as_str().unwrap().starts_with("sysfs:/devices/"));
        assert!(
            ["unsupported", "identity_check_required"].contains(&d["support"].as_str().unwrap())
        );
    }
}

#[test]
fn invalid_updates_exit_two_before_device_access() {
    let listing: Listing = Err(OsError {
        kind: OsErrorKind::Other,
        detail: "the listing must not be looked at".to_string(),
    });
    for update in [
        Update::default(),
        threshold_update(Some(119), None, None),
        threshold_update(Some(193), None, None),
        threshold_update(None, Some(94), None),
        threshold_update(None, Some(155), None),
        threshold_update(None, None, Some(59)),
        threshold_update(None, None, Some(126)),
        threshold_update(None, None, Some(0)),
        threshold_update(Some(65535), None, None),
    ] {
        for dry_run in [true, false] {
            let command = Command::Change { device: None, dry_run, update };
            let mut opener = Opener::new(|_: &Device| -> Result<Protocol<Pad>, Error> {
                panic!("no device may be opened")
            });
            let result = execute(&command, &listing, &None, &mut opener);
            let emission = respond(true, &command, result);
            assert_eq!(emission.exit_code, 2);
            assert!(emission.diagnostic.is_some());
            let value = document(emission.output);
            assert_eq!(value["schema_version"], 1);
            assert_eq!(value["command"], "set");
            assert_eq!(value["ok"], false);
            assert_eq!(value["data"], serde_json::Value::Null);
            assert_eq!(value["error"]["exit_code"], 2);
        }
    }
    let message = |update: Update| update.validate().unwrap_err().message;
    assert_eq!(message(Update::default()), "set requires at least one setting");
    assert_eq!(
        message(threshold_update(Some(119), None, None)),
        "press_threshold must be between 120 and 192"
    );
    assert_eq!(
        message(threshold_update(None, Some(155), Some(0))),
        "release_threshold must be between 95 and 154"
    );
    assert_eq!(
        message(threshold_update(None, None, Some(0))),
        "drag_release_threshold must be between 60 and 125"
    );
    for update in [
        threshold_update(Some(120), Some(95), Some(60)),
        threshold_update(Some(192), Some(154), Some(125)),
        Update { thresholds: [None; 3], haptics: Some(false) },
    ] {
        assert!(update.validate().is_ok());
    }
}

#[test]
fn get_shows_settings_and_capabilities() {
    let command = Command::Get { device: None };
    let result = execute(&command, &one_device(), &None, &mut Opener::new(open_simulator));
    let emission = respond(true, &command, result);
    assert_eq!(emission.exit_code, 0);
    let shown = document(emission.output);
    assert_eq!(shown["ok"], true);
    assert_eq!(shown["data"]["device"]["path"], "/dev/hidraw3");
    assert_eq!(shown["data"]["device"]["support"], "compatible");
    assert_eq!(
        shown["data"]["settings"].to_string(),
        "{\"press_threshold\":150,\"release_threshold\":125,\"drag_release_threshold\":60,\"haptics\":\"on\"}"
    );
    let capabilities = &shown["data"]["capabilities"];
    assert_eq!(capabilities["units"], "device_raw");
    assert!(capabilities["firmware_ranges"].is_null());
    assert!(capabilities["cli_threshold_bounds"].is_null());
    assert_eq!(capabilities["threshold_encoding"]["max"], 65535);
    assert_eq!(
        capabilities["constraints"],
        "both releases strictly below press; unspecified values preserved"
    );
    assert_eq!(capabilities["haptics"]["write"], true);
    assert_eq!(capabilities["haptic_level"]["write"], false);

    let result = execute(&command, &one_device(), &None, &mut Opener::new(open_simulator));
    let text = words(respond(false, &command, result).output);
    assert_eq!(
        text,
        "/dev/hidraw3\npress_threshold: 150\nrelease_threshold: 125\n\
drag_release_threshold: 60\nhaptics: \"on\"\n\
Raw unsigned 16-bit units (0..65535); firmware ranges unknown. Both releases must be below press.\n\
Haptics: vendor bit 8 (hardware behavior unverified here). Haptic level: unavailable; physical interpretation unverified.\n"
    );
}

#[test]
fn get_only_reads() {
    let mut io = Protocol(Pad::new([150, 125, 60, 0]));
    let (data, error) = read_device(candidate("a"), &mut io).unwrap();
    assert!(error.is_none());
    match data {
        Data::Reading { settings, .. } => assert_eq!(
            settings,
            Settings {
                press_threshold: 150,
                release_threshold: 125,
                drag_release_threshold: 60,
                haptics: false
            }
        ),
        other => panic!("{other:?}"),
    }
    assert!(io.0.writes.is_empty());
    io.0.short_query = true;
    let error = read_device(candidate("a"), &mut io).unwrap_err();
    assert_eq!(error.message, "query: expected 5 bytes, got 4");
}

#[test]
fn set_reports_what_it_did_in_words() {
    let command = Command::Change {
        device: Some("sysfs:/devices/pci0000:00/i2c-1/i2c-ELAN2703:00".to_string()),
        dry_run: true,
        update: threshold_update(Some(120), Some(95), None),
    };
    let result = execute(&command, &one_device(), &None, &mut Opener::new(open_simulator));
    let emission = respond(false, &command, result);
    assert_eq!(emission.exit_code, 0);
    assert_eq!(
        words(emission.output),
        "/dev/hidraw3\ndry_run\n  release_threshold: 125 -> 95 (raw)\n  press_threshold: 150 -> 120 (raw)\n\
Query feature reports only; no parameter mutations.\n"
    );
    let mut opener = Opener::new(|_: &Device| -> Result<Protocol<Pad>, Error> {
        Ok(Protocol(Pad::new([120, 95, 60, 0x100])))
    });
    let result = execute(&command, &one_device(), &None, &mut opener);
    assert_eq!(
        words(respond(false, &command, result).output),
        "/dev/hidraw3\ndry_run\nQuery feature reports only; no parameter mutations.\n"
    );
}

#[test]
fn a_failed_update_exits_one_even_where_it_was_restored() {
    let mut io = Protocol(Pad::new([150, 125, 125, 0x100]));
    io.0.fail_writes = vec![3];
    let update = threshold_update(Some(120), Some(95), Some(60));
    let result = change_device(candidate("a"), &mut io, &update, false);
    let command = Command::Change { device: None, dry_run: false, update };
    let emission = respond(false, &command, result);
    assert_eq!(emission.exit_code, 1);
    assert_eq!(
        emission.diagnostic.unwrap(),
        "elan-haptune: update_failed: write 0x03a2=120: injected write failure; rollback: restored"
    );
    assert_eq!(
        words(emission.output),
        "/dev/a\nfailed\n  release_threshold: 125 -> 95 (raw)\n  drag_release_threshold: 125 -> 60 (raw)\n  \
press_threshold: 150 -> 120 (raw)\nRollback: restored\n\
Verified forward changes: 2. Observed after recovery: \
{\"press_threshold\":150,\"release_threshold\":125,\"drag_release_threshold\":125,\"haptics\":\"on\"}\n"
    );

    let mut io = Protocol(Pad::new([150, 125, 125, 0x100]));
    io.0.fail_reads_after_write = true;
    let result = change_device(candidate("a"), &mut io, &update, false);
    let emission = respond(true, &command, result);
    assert_eq!(emission.exit_code, 1);
    let shown = document(emission.output);
    assert_eq!(shown["error"]["kind"], "update_failed");
    assert_eq!(shown["data"]["update"]["status"], "failed");
    assert_eq!(shown["data"]["update"]["rollback"]["status"], "unknown");
    assert!(shown["data"]["update"]["observed_after"].is_null());
    assert_eq!(shown["data"]["update"]["planned"].as_array().unwrap().len(), 3);
    assert_eq!(shown["data"]["update"]["attempted"].as_array().unwrap().len(), 1);

    let mut io = Protocol(Pad::new([150, 125, 125, 0x100]));
    io.0.fail_reads_after_write = true;
    let result = change_device(candidate("a"), &mut io, &update, false);
    let text = words(respond(false, &command, result).output);
    assert!(text.ends_with(
        "Rollback: unknown\nVerified forward changes: 0. Observed after recovery: null\n\
Rollback detail: query response 0x03a2: injected disconnected device\n"
    ));
}

#[test]
fn an_unsupported_current_state_exits_five_and_a_refused_target_two() {
    let mut io = Protocol(Pad::new([100, 125, 60, 0x100]));
    let error = apply(&mut io, &threshold_update(Some(192), None, None), false).unwrap_err();
    assert_eq!(error.exit_code, 5);
    assert_eq!(
        error.message,
        "current thresholds cannot be safely updated: \
both release thresholds must be strictly below press threshold"
    );
    let mut io = Protocol(Pad::new([150, 0, 60, 0x100]));
    let error = apply(&mut io, &threshold_update(Some(192), None, None), false).unwrap_err();
    assert_eq!(error.exit_code, 5);
    assert_eq!(
        error.message,
        "current thresholds cannot be safely updated: both release thresholds must be positive"
    );
    let mut io = Protocol(Pad::new([150, 125, 60, 0x100]));
    let error = apply(&mut io, &threshold_update(Some(120), None, None), false).unwrap_err();
    assert_eq!((error.kind, error.exit_code), ("invalid_request", 2));
    assert!(io.0.writes.is_empty());
}

#[test]
fn unspecified_values_outside_the_bounds_are_preserved() {
    let mut io = Protocol(Pad::new([300, 20, 10, 0xfeff]));
    let report = apply(&mut io, &threshold_update(None, Some(95), None), false).unwrap();
    assert_eq!(report.status, "applied");
    assert_eq!(io.0.state(), State([300, 95, 10, 0xfeff]));
    assert_eq!(io.0.writes, [(0x03a3, 95)]);
    assert_eq!(io.0.settled, 1);
}

#[test]
fn feedback_is_disabled_first_and_enabled_last() {
    let mut io = Protocol(Pad::new([150, 125, 100, 0x0102]));
    let mut update = threshold_update(Some(120), Some(95), Some(60));
    update.haptics = Some(false);
    assert_eq!(apply(&mut io, &update, false).unwrap().status, "applied");
    assert_eq!(
        io.0.writes,
        [(0x03a1, 0x0002), (0x03a3, 95), (0x03a4, 60), (0x03a2, 120)]
    );
    io.0.writes.clear();
    let mut update = threshold_update(Some(192), Some(154), Some(125));
    update.haptics = Some(true);
    assert_eq!(apply(&mut io, &update, false).unwrap().status, "applied");
    assert_eq!(
        io.0.writes,
        [(0x03a2, 192), (0x03a3, 154), (0x03a4, 125), (0x03a1, 0x0102)]
    );
}

#[test]
fn a_report_lists_every_write_of_update_and_rollback() {
    let mut io = Protocol(Pad::new([150, 125, 125, 0x100]));
    io.0.fail_writes = vec![3];
    io.0.fail_after_apply = true;
    let report = apply(&mut io, &threshold_update(Some(120), Some(95), Some(60)), false).unwrap();
    let rollback = report.rollback.unwrap();
    let listed: Vec<(u16, u16)> = report
        .attempted
        .iter()
        .chain(rollback.attempted.iter())
        .map(|c| (REGS[c.index], c.after_raw))
        .collect();
    assert_eq!(listed, io.0.writes);
    assert_eq!(
        io.0.writes,
        [
            (0x03a3, 95),
            (0x03a4, 60),
            (0x03a2, 120),
            (0x03a2, 150),
            (0x03a3, 125),
            (0x03a4, 125)
        ]
    );
}

#[test]
fn protocol_messages_name_register_and_bytes() {
    assert_eq!(
        decode(0x03a2, &[13, 0xa3, 3, 0, 255], 5).unwrap_err().message,
        "invalid report/register echo for 0x03a2: [0d, a3, 03, 00, ff]"
    );
    assert_eq!(
        decode(0x03a2, &[], 5).unwrap_err().message,
        "invalid report/register echo for 0x03a2: []"
    );
    assert_eq!(
        exact_length(6, "parameter write").unwrap_err().message,
        "parameter write: expected 5 bytes, got 6"
    );
    let mut io = Protocol(Pad::new([150, 125, 60, 0x100]));
    io.0.registers.insert(0x0103, 0x1400);
    assert_eq!(
        io.check_identity().unwrap_err().message,
        "unrecognized protocol identity 0x0130/0x1400; expected 0x0130/0x1300"
    );
    io.0.corrupt_write = Some(1);
    let error = io.write_verified(0x03a3, 95).unwrap_err();
    assert_eq!(error.kind, "verification");
    assert_eq!(error.message, "0x03a3: requested 95, read back 96");
}

#[test]
fn a_negative_count_is_a_failure_of_the_system() {
    let error = OsError {
        kind: OsErrorKind::Other,
        detail: "Input/output error (os error 5)".to_string(),
    };
    assert_eq!(feature_count(5, &error).unwrap(), 5);
    assert_eq!(feature_count(0, &error).unwrap(), 0);
    let reported = feature_count(-1, &error).unwrap_err();
    assert_eq!(reported.kind, "io");
    assert_eq!(
        reported.message,
        "hidraw feature report: Input/output error (os error 5)"
    );
}
