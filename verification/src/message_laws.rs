//! What failures say.
use vstd::prelude::*;

use crate::device::{all_described, described, identity_of, number_of, DeviceView, HidrawEntry};
use crate::elan::{state_check, target_outcome, update_check, Update};
use crate::error::{ErrorView, OsError};
use crate::opening::{first_action, next_action, Event};
use crate::protocol::{
    decoded, identity_outcome, is_identity_check, is_read, is_write, length_check, listed,
    read_outcome, shown, shown_bytes, write_outcome, Exchange,
};
use crate::selection::{candidates_outcome, conclusion, form_of, ProbeView};
use crate::settings_laws::{is_safe, may_be_asked, only_updates_in_bounds_are_accepted};
use crate::text::{decimal, hex, parsed, split_once, trimmed};
use crate::update::refusal;
use crate::update_laws::may_be_led_back;

verus! {

/// A register is shown in hexadecimal with four digits, and bytes with two each, in brackets and
/// with commas between them.
pub proof fn registers_and_bytes_are_shown(reg: u16, bytes: Seq<u8>, byte: u8)
    ensures
        shown(reg) == "0x"@ + hex(reg as nat, 4),
        shown_bytes(bytes) == "["@ + listed(bytes) + "]"@,
        listed(Seq::<u8>::empty()) == Seq::<char>::empty(),
        listed(seq![byte]) == hex(byte as nat, 2),
        bytes.len() > 0 ==> listed(bytes.push(byte)) == listed(bytes) + ", "@ + hex(byte as nat, 2),
{
    assert(bytes.push(byte).drop_last() =~= bytes);
}

/// A wrong count is told with the operation and the count; a reply that does not repeat the register
/// with the register and its bytes.
pub proof fn wrong_replies_are_told(
    count: usize,
    operation: Seq<char>,
    reg: u16,
    bytes: Seq<u8>,
)
    ensures
        length_check(count, operation) matches Err(error) ==> error.message == operation
            + ": expected 5 bytes, got "@ + decimal(count as nat),
        count != 5 ==> (decoded(reg, bytes, count) matches Err(error) && error.message
            == "query response"@ + ": expected 5 bytes, got "@ + decimal(count as nat)),
        count == 5 ==> (decoded(reg, bytes, count) matches Err(error) ==> error.message
            == "invalid report/register echo for "@ + shown(reg) + ": "@ + shown_bytes(bytes)),
{
}

/// A read that fails says whether the request or the response failed, for which register, and why.
pub proof fn a_failed_read_says_why(reg: u16, log: Seq<Exchange>)
    requires
        is_read(reg, log),
    ensures
        log[0]->Sent_reply matches Err(error) ==> (read_outcome(reg, log) matches Err(told)
            && told.message == "query request "@ + shown(reg) + ": "@ + error.message),
        log[0]->Sent_reply matches Ok(count) ==> count != 5 ==> (read_outcome(reg, log) matches Err(
            told,
        ) && told.message == "query"@ + ": expected 5 bytes, got "@ + decimal(count as nat)
            && told.kind == "protocol"@ && told.exit_code == 1),
        log.len() == 2 ==> (log[1]->Fetched_reply matches Err(error) ==> (read_outcome(
            reg,
            log,
        ) matches Err(told) && told.message == "query response "@ + shown(reg) + ": "@
            + error.message)),
{
}

/// A write that fails says which register was to have which value, and why it failed or what was
/// read back instead.
pub proof fn a_failed_write_says_why(reg: u16, value: u16, log: Seq<Exchange>)
    requires
        is_write(reg, value, log),
    ensures
        log[0]->Sent_reply matches Err(error) ==> (write_outcome(reg, value, log) matches Err(told)
            && told.message == "write "@ + shown(reg) + "="@ + decimal(value as nat) + ": "@
            + error.message),
        log[0]->Sent_reply matches Ok(count) ==> count != 5 ==> (write_outcome(
            reg,
            value,
            log,
        ) matches Err(told) && told.message == "parameter write"@ + ": expected 5 bytes, got "@
            + decimal(count as nat)),
        log[0]->Sent_reply == Ok::<usize, ErrorView>(5) ==> (read_outcome(
            reg,
            log.skip(2),
        ) matches Ok(actual) ==> actual != value ==> (write_outcome(reg, value, log) matches Err(
            told,
        ) && told.message == shown(reg) + ": requested "@ + decimal(value as nat)
            + ", read back "@ + decimal(actual as nat))),
{
}

/// A wrong identity is told with both values that were read and those that were expected.
pub proof fn a_wrong_identity_is_told(reads: Seq<Seq<Exchange>>, first: u16, second: u16)
    requires
        is_identity_check(reads),
        read_outcome(0x0101, reads[0]) == Ok::<u16, ErrorView>(first),
        read_outcome(0x0103, reads[1]) == Ok::<u16, ErrorView>(second),
        first != 0x0130 || second != 0x1300,
    ensures
        identity_outcome(reads) == Err::<(), ErrorView>(
            ErrorView::unsupported(
                "unrecognized protocol identity "@ + shown(first) + "/"@ + shown(second)
                    + "; expected 0x0130/0x1300"@,
            ),
        ),
{
}

/// An update that is refused says that it is empty, or which threshold is the first outside which
/// bounds; a state that is refused says what is wrong with it, and whether it is the current one.
pub proof fn a_refused_update_says_why(update: Update, before: Seq<u16>)
    ensures
        update_check(update) matches Err(error) ==> {
            let asked = update.thresholds@;
            if asked[0] is None && asked[1] is None && asked[2] is None && update.haptics is None {
                error.message == "set requires at least one setting"@
            } else if asked[0] is Some && !(120 <= asked[0]->0 <= 192) {
                error.message == "press_threshold"@ + " must be between "@ + decimal(120)
                    + " and "@ + decimal(192)
            } else if asked[1] is Some && !(95 <= asked[1]->0 <= 154) {
                error.message == "release_threshold"@ + " must be between "@ + decimal(95)
                    + " and "@ + decimal(154)
            } else {
                error.message == "drag_release_threshold"@ + " must be between "@ + decimal(60)
                    + " and "@ + decimal(125)
            }
        },
        may_be_asked(update) ==> (state_check(before) matches Err(wrong) ==> (target_outcome(
            update,
            before,
        ) matches Err(error) && error.message == "current thresholds cannot be safely updated: "@
            + wrong.message)),
{
    reveal_with_fuel(crate::elan::first_outside, 4);
    only_updates_in_bounds_are_accepted(update);
}

/// A rollback that is refused says why: a setting that was not written changed, or other control
/// bits did, or the state is not safe.
pub proof fn a_refused_rollback_says_why(
    before: Seq<u16>,
    current: Seq<u16>,
    attempted: Seq<crate::elan::ChangeView>,
)
    requires
        before.len() == 4,
        current.len() == 4,
        is_safe(before),
    ensures
        refusal(before, current, attempted) matches Some(error) ==> {
            &&& error.kind == "rollback"@
            &&& error.exit_code == 1
            &&& error.message == (if exists|i: int|
                0 <= i < 4 && #[trigger] current[i] != before[i] && (forall|k: int|
                    0 <= k < attempted.len() ==> (#[trigger] attempted[k]).index != i) {
                "an untouched setting changed; refusing to overwrite external changes"@
            } else if current[3] & 0xfeff != before[3] & 0xfeff {
                "unrelated control bits changed; rollback stopped"@
            } else {
                "cannot establish safe rollback order: "@ + state_check(current)->Err_0.message
            })
        },
        refusal(before, current, attempted) is None <==> may_be_led_back(
            before,
            current,
            attempted,
        ),
{
    let (a, b) = (current[3], before[3]);
    assert((a ^ b) & !0x0100u16 == 0 <==> a & 0xfeffu16 == b & 0xfeffu16) by (bit_vector);
    assert forall|i: int| crate::update::touched(attempted, i) <==> !(forall|k: int|
        0 <= k < attempted.len() ==> (#[trigger] attempted[k]).index != i) by {}
}

/// A selector that finds no device to open says why.
pub proof fn a_selection_without_candidates_says_why(
    devices: Seq<DeviceView>,
    selector: Seq<char>,
    resolved: Option<Result<String, OsError>>,
)
    ensures
        candidates_outcome(devices, Some(selector), resolved) matches Err(error) ==> {
            &&& form_of(selector) is Unknown ==> error.message
                == "--device must be an absolute hidraw path or a sysfs: selector from list"@
            &&& form_of(selector) is Node ==> (resolved matches Some(Err(failure))
                ==> error.message == if failure.kind is NotFound {
                "device path not found: "@ + selector
            } else {
                selector + ": "@ + failure.detail@
            })
            &&& form_of(selector) is Physical || form_of(selector) is Node && (
            resolved matches Some(Ok(_))) ==> error.message == if error.exit_code == 3 {
                "no hidraw device matches the selector"@
            } else {
                "selected device has no supported profile"@
            }
        },
{
}

/// A selection that cannot choose says whether no device is compatible, or several are, or several
/// interfaces of one.
pub proof fn a_selection_without_choice_says_why(
    candidates: Seq<DeviceView>,
    probes: Seq<ProbeView>,
)
    requires
        forall|i: int| 0 <= i < probes.len() ==> !((#[trigger] probes[i]) is Failed),
        probes.len() <= candidates.len(),
    ensures
        conclusion(candidates, false, probes) matches Err(error) ==> error.message == (if probes.len()
            < candidates.len() {
            "multiple candidate interfaces on one physical device; select an explicit hidraw path"@
        } else if error.exit_code == 3 {
            "no known-compatible device found"@
        } else {
            "multiple known-compatible physical devices; use --device"@
        }),
        conclusion(candidates, false, probes) matches Err(error) ==> error.exit_code == 3
            || error.exit_code == 4,
        probes.len() < candidates.len() ==> (conclusion(candidates, false, probes) matches Err(error)
            && error.exit_code == 4),
{
    if probes.len() > 0 {
        assert(!(probes[probes.len() - 1] is Failed));
    }
}

/// A node that cannot be described says what could not be done or read, or what makes no sense.
pub proof fn an_undescribed_node_says_why(
    entry: HidrawEntry,
    entries: Seq<Result<HidrawEntry, OsError>>,
    error: OsError,
)
    ensures
        entry.device matches Err(failure) ==> described(entry) == Err::<DeviceView, ErrorView>(
            ErrorView::io("resolve HID sysfs device"@, failure.kind, failure.detail@),
        ),
        entry.device matches Ok(sys) ==> (sys.uevent matches Err(failure) ==> described(entry)
            == Err::<DeviceView, ErrorView>(
            ErrorView::io("read HID identity"@, failure.kind, failure.detail@),
        )),
        entry.device matches Ok(sys) ==> (sys.uevent matches Ok(uevent) ==> (identity_of(
            uevent@,
        ) matches Err(failure) ==> described(entry) == Err::<DeviceView, ErrorView>(failure))),
        described(entry) matches Err(failure) ==> (entry.device matches Ok(sys) && (
        sys.uevent matches Ok(uevent) && identity_of(uevent@) is Ok) ==> {
            ||| failure == ErrorView::protocol("HID device has no physical parent"@)
                && crate::device::parent_of(entry.device->Ok_0.path@) is None
            ||| (entry.dev matches Err(unread) && failure == ErrorView::io(
                "read hidraw device number"@,
                unread.kind,
                unread.detail@,
            ))
            ||| (entry.dev matches Ok(dev) && number_of(dev@) == Err::<u64, ErrorView>(failure))
        }),
        all_described(entries) is Ok ==> all_described(
            entries.push(Err::<HidrawEntry, OsError>(error)),
        ) == Err::<Seq<DeviceView>, ErrorView>(
            ErrorView::io("enumerate hidraw"@, error.kind, error.detail@),
        ),
        all_described(entries) matches Ok(found) ==> all_described(
            entries.push(Ok::<HidrawEntry, OsError>(entry)),
        ) == (match described(entry) {
            Ok(device) => Ok::<Seq<DeviceView>, ErrorView>(found.push(device)),
            Err(failure) => Err::<Seq<DeviceView>, ErrorView>(failure),
        }),
        all_described(entries) matches Err(failure) ==> all_described(
            entries.push(Ok::<HidrawEntry, OsError>(entry)),
        ) == Err::<Seq<DeviceView>, ErrorView>(failure),
{
    assert(entries.push(Err::<HidrawEntry, OsError>(error)).drop_last() =~= entries);
    assert(entries.push(Ok::<HidrawEntry, OsError>(entry)).drop_last() =~= entries);
}

/// An identity and a device number that make no sense say which part does not.
pub proof fn senseless_numbers_are_told(uevent: Seq<char>, dev: Seq<char>)
    ensures
        identity_of(uevent) matches Err(error) ==> error.message == (
        if crate::device::attribute_of(uevent, "HID_ID"@) is None {
            "missing HID_ID in sysfs"@
        } else {
            "invalid HID_ID in sysfs"@
        }),
        number_of(dev) matches Err(error) ==> error.message == (match split_once(
            trimmed(dev),
            ':',
        ) {
            None => "invalid sysfs device number"@,
            Some((major, minor)) => if parsed(major, 10) is None {
                "invalid device major"@
            } else {
                "invalid device minor"@
            },
        }),
{
}

/// An opening that stops says what was being done.
pub proof fn a_stopped_opening_says_why(device: DeviceView, error: OsError)
    ensures
        first_action(device) matches Err(told) ==> told.message == device.path
            + " is outside the ELAN2703 I2C profile"@,
        next_action(device, Event::DirectoryOpened(Err(error))) matches Err(told) && told
            == ErrorView::io("open physical device for locking"@, error.kind, error.detail@),
        next_action(device, Event::Locked(Err(error))) matches Err(told) && told == (
        if error.kind is WouldBlock {
            ErrorView {
                kind: "busy"@,
                message: "another elan-haptune process holds this device; retry when it exits"@,
                exit_code: 1,
            }
        } else {
            ErrorView::io("lock physical device"@, error.kind, error.detail@)
        }),
        next_action(device, Event::Inspected(Err(error))) matches Err(told) && told
            == ErrorView::io("stat hidraw descriptor"@, error.kind, error.detail@),
        next_action(device, Event::Resolved(Err(error))) matches Err(told) && told == ErrorView::io(
            "recheck HID sysfs identity"@,
            error.kind,
            error.detail@,
        ),
        next_action(device, Event::Identified(Err(error))) matches Err(told) && told
            == ErrorView::io("HIDIOCGRAWINFO"@, error.kind, error.detail@),
{
}

} // verus!
