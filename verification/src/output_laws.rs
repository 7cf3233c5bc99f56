//! What holds of all that is printed.
use vstd::prelude::*;

use crate::command::{
    change_lines, emitted, human_text, listing_lines, report_lines, settings_lines, settings_text,
    OutputView,
};
use crate::device::DeviceView;
use crate::document::{
    capabilities_document, change_document, changes_document, data_document, device_document,
    document, error_document, failure_document, report_document, rollback_document,
    settings_document, DataView,
};
use crate::elan::{ChangeView, Settings};
use crate::error::ErrorView;
use crate::json::{quoted, JsonView};
use crate::text::decimal;
use crate::update::{ReportView, RollbackView};

verus! {

/// The names of the members of a JSON object, in order.
pub open spec fn keys(json: JsonView) -> Seq<Seq<char>> {
    json->Object_0.map_values(|member: (Seq<char>, JsonView)| member.0)
}

/// The value of the member of a JSON object at a place.
pub open spec fn value_at(json: JsonView, at: int) -> JsonView {
    json->Object_0[at].1
}

/// A number as JSON.
pub open spec fn number_json(n: int) -> JsonView {
    JsonView::Number(n as nat)
}

/// A switch as JSON: `on` or `off`.
pub open spec fn switch_json(on: bool) -> JsonView {
    JsonView::Text(
        if on {
            "on"@
        } else {
            "off"@
        },
    )
}

/// Settings are an object that names the press, release and drag release threshold, each with its
/// number, and whether feedback is on or off.
pub proof fn settings_are_told_by_name(settings: Settings)
    ensures
        settings_document(settings) is Object,
        keys(settings_document(settings)) == seq![
            "press_threshold"@,
            "release_threshold"@,
            "drag_release_threshold"@,
            "haptics"@,
        ],
        value_at(settings_document(settings), 0) == number_json(settings.press_threshold as int),
        value_at(settings_document(settings), 1) == number_json(settings.release_threshold as int),
        value_at(settings_document(settings), 2) == number_json(
            settings.drag_release_threshold as int,
        ),
        value_at(settings_document(settings), 3) == switch_json(settings.haptics),
{
    assert(keys(settings_document(settings)) =~= seq![
        "press_threshold"@,
        "release_threshold"@,
        "drag_release_threshold"@,
        "haptics"@,
    ]);
}

/// Settings with the same document are the same.
pub proof fn documents_tell_settings_apart(first: Settings, second: Settings)
    requires
        settings_document(first) == settings_document(second),
    ensures
        first == second,
{
    settings_are_told_by_name(first);
    settings_are_told_by_name(second);
    reveal_strlit("on");
    reveal_strlit("off");
    assert("on"@.len() == 2 && "off"@.len() == 3);
}

/// A failure is told with its kind, message and exit code; where there is none, null is told.
pub proof fn failures_are_told(error: ErrorView)
    ensures
        failure_document(None) is Null,
        failure_document(Some(error)) == error_document(error),
        error_document(error) is Object,
        keys(error_document(error)) == seq!["kind"@, "message"@, "exit_code"@],
        value_at(error_document(error), 0) == JsonView::Text(error.kind),
        value_at(error_document(error), 1) == JsonView::Text(error.message),
        value_at(error_document(error), 2) == number_json(error.exit_code as int),
{
    assert(keys(error_document(error)) =~= seq!["kind"@, "message"@, "exit_code"@]);
}

/// A change is told with the setting and its values before and after. Of changes every one is told,
/// in order.
pub proof fn changes_are_told(changes: Seq<ChangeView>, change: ChangeView, at: int)
    ensures
        change_document(change) is Object,
        keys(change_document(change)) == seq!["setting"@, "before_raw"@, "after_raw"@],
        value_at(change_document(change), 0) == JsonView::Text(change.setting),
        value_at(change_document(change), 1) == number_json(change.before_raw as int),
        value_at(change_document(change), 2) == number_json(change.after_raw as int),
        changes_document(changes) is List,
        changes_document(changes)->List_0.len() == changes.len(),
        0 <= at < changes.len() ==> changes_document(changes)->List_0[at] == change_document(
            changes[at],
        ),
{
    assert(keys(change_document(change)) =~= seq!["setting"@, "before_raw"@, "after_raw"@]);
}

/// A rollback is told with its status, the changes that it attempted and verified, and its failure.
pub proof fn rollbacks_are_told(rollback: RollbackView)
    ensures
        rollback_document(rollback) is Object,
        keys(rollback_document(rollback)) == seq!["status"@, "attempted"@, "verified"@, "error"@],
        value_at(rollback_document(rollback), 0) == JsonView::Text(rollback.status),
        value_at(rollback_document(rollback), 1) == changes_document(rollback.attempted),
        value_at(rollback_document(rollback), 2) == changes_document(rollback.verified),
        value_at(rollback_document(rollback), 3) == failure_document(rollback.error),
{
    assert(keys(rollback_document(rollback)) =~= seq![
        "status"@,
        "attempted"@,
        "verified"@,
        "error"@,
    ]);
}

/// A report is told with all that it holds, each under its own name. Settings that could not be
/// observed and a rollback that was not made are null.
pub proof fn reports_are_told(report: ReportView)
    ensures
        report_document(report) is Object,
        keys(report_document(report)) == seq![
            "status"@,
            "before"@,
            "requested"@,
            "observed_after"@,
            "planned"@,
            "attempted"@,
            "verified"@,
            "error"@,
            "rollback"@,
        ],
        value_at(report_document(report), 0) == JsonView::Text(report.status),
        value_at(report_document(report), 1) == settings_document(report.before),
        value_at(report_document(report), 2) == settings_document(report.requested),
        value_at(report_document(report), 3) == (match report.observed_after {
            Some(settings) => settings_document(settings),
            None => JsonView::Null,
        }),
        value_at(report_document(report), 4) == changes_document(report.planned),
        value_at(report_document(report), 5) == changes_document(report.attempted),
        value_at(report_document(report), 6) == changes_document(report.verified),
        value_at(report_document(report), 7) == failure_document(report.error),
        value_at(report_document(report), 8) == (match report.rollback {
            Some(rollback) => rollback_document(rollback),
            None => JsonView::Null,
        }),
{
    assert(keys(report_document(report)) =~= seq![
        "status"@,
        "before"@,
        "requested"@,
        "observed_after"@,
        "planned"@,
        "attempted"@,
        "verified"@,
        "error"@,
        "rollback"@,
    ]);
}

/// A device is told with its node, selector, name, bus, vendor, product, physical path and support,
/// and nothing else of it is.
pub proof fn devices_are_told(device: DeviceView)
    ensures
        device_document(device) is Object,
        keys(device_document(device)) == seq![
            "path"@,
            "selector"@,
            "name"@,
            "bus"@,
            "vendor_id"@,
            "product_id"@,
            "physical_path"@,
            "support"@,
        ],
        value_at(device_document(device), 0) == JsonView::Text(device.path),
        value_at(device_document(device), 1) == JsonView::Text(device.selector),
        value_at(device_document(device), 2) == JsonView::Text(device.name),
        value_at(device_document(device), 3) == number_json(device.bus as int),
        value_at(device_document(device), 4) == JsonView::Text(device.vendor_id),
        value_at(device_document(device), 5) == JsonView::Text(device.product_id),
        value_at(device_document(device), 6) == JsonView::Text(device.physical_path),
        value_at(device_document(device), 7) == JsonView::Text(device.support),
{
    assert(keys(device_document(device)) =~= seq![
        "path"@,
        "selector"@,
        "name"@,
        "bus"@,
        "vendor_id"@,
        "product_id"@,
        "physical_path"@,
        "support"@,
    ]);
}

/// A listing tells every device that was found, supported or not, in order. A reading tells the
/// device, its settings and what can be done with it; an update the device and the report.
pub proof fn data_are_told(
    devices: Seq<DeviceView>,
    at: int,
    device: DeviceView,
    settings: Settings,
    report: ReportView,
)
    ensures
        ({
            let listing = data_document(DataView::Devices(devices));
            &&& listing is Object
            &&& keys(listing) == seq!["devices"@]
            &&& value_at(listing, 0) is List
            &&& value_at(listing, 0)->List_0.len() == devices.len()
            &&& 0 <= at < devices.len() ==> value_at(listing, 0)->List_0[at] == device_document(
                devices[at],
            )
        }),
        ({
            let reading = data_document(DataView::Reading { device, settings });
            &&& reading is Object
            &&& keys(reading) == seq!["device"@, "settings"@, "capabilities"@]
            &&& value_at(reading, 0) == device_document(device)
            &&& value_at(reading, 1) == settings_document(settings)
            &&& value_at(reading, 2) == capabilities_document()
        }),
        ({
            let update = data_document(DataView::Updated { device, report });
            &&& update is Object
            &&& keys(update) == seq!["device"@, "update"@]
            &&& value_at(update, 0) == device_document(device)
            &&& value_at(update, 1) == report_document(report)
        }),
{
    assert(keys(data_document(DataView::Devices(devices))) =~= seq!["devices"@]);
    assert(keys(data_document(DataView::Reading { device, settings })) =~= seq![
        "device"@,
        "settings"@,
        "capabilities"@,
    ]);
    assert(keys(data_document(DataView::Updated { device, report })) =~= seq![
        "device"@,
        "update"@,
    ]);
}

/// What can be done: thresholds in raw units of 16 bits, with no ranges of the firmware and no
/// bounds told; feedback is read and written, its level neither.
pub proof fn capabilities_are_told()
    ensures
        capabilities_document() is Object,
        keys(capabilities_document()) == seq![
            "units"@,
            "firmware_ranges"@,
            "cli_threshold_bounds"@,
            "threshold_encoding"@,
            "constraints"@,
            "haptics"@,
            "haptic_level"@,
        ],
        value_at(capabilities_document(), 0) == JsonView::Text("device_raw"@),
        value_at(capabilities_document(), 1) is Null,
        value_at(capabilities_document(), 2) is Null,
        value_at(capabilities_document(), 3) == JsonView::Object(
            seq![
                ("type"@, JsonView::Text("u16"@)),
                ("min"@, number_json(0)),
                ("max"@, number_json(0xffff)),
            ],
        ),
        value_at(capabilities_document(), 4) == JsonView::Text(
            "both releases strictly below press; unspecified values preserved"@,
        ),
        keys(value_at(capabilities_document(), 5)) == seq!["read"@, "write"@, "evidence"@],
        value_at(value_at(capabilities_document(), 5), 0) == JsonView::Bool(true),
        value_at(value_at(capabilities_document(), 5), 1) == JsonView::Bool(true),
        value_at(value_at(capabilities_document(), 5), 2) == JsonView::Text(
            "vendor bit 8; not hardware-validated by this project"@,
        ),
        keys(value_at(capabilities_document(), 6)) == seq!["read"@, "write"@, "reason"@],
        value_at(value_at(capabilities_document(), 6), 0) == JsonView::Bool(false),
        value_at(value_at(capabilities_document(), 6), 1) == JsonView::Bool(false),
        value_at(value_at(capabilities_document(), 6), 2) == JsonView::Text(
            "physical interpretation and safe target behavior unverified"@,
        ),
{
    assert(keys(capabilities_document()) =~= seq![
        "units"@,
        "firmware_ranges"@,
        "cli_threshold_bounds"@,
        "threshold_encoding"@,
        "constraints"@,
        "haptics"@,
        "haptic_level"@,
    ]);
    assert(keys(value_at(capabilities_document(), 5)) =~= seq!["read"@, "write"@, "evidence"@]);
    assert(keys(value_at(capabilities_document(), 6)) =~= seq!["read"@, "write"@, "reason"@]);
    assert(value_at(capabilities_document(), 3)->Object_0 =~= seq![
        ("type"@, JsonView::Text("u16"@)),
        ("min"@, number_json(0)),
        ("max"@, number_json(0xffff)),
    ]);
}

/// A document tells the version 1, the command, whether all went well, the data, or null where there
/// are none, and the failure, or null where there is none.
pub proof fn a_document_tells_the_outcome(
    command: Seq<char>,
    data: Option<DataView>,
    error: Option<ErrorView>,
)
    ensures
        document(command, data, error) is Object,
        keys(document(command, data, error)) == seq![
            "schema_version"@,
            "command"@,
            "ok"@,
            "data"@,
            "error"@,
        ],
        value_at(document(command, data, error), 0) == number_json(1),
        value_at(document(command, data, error), 1) == JsonView::Text(command),
        value_at(document(command, data, error), 2) == JsonView::Bool(error is None),
        value_at(document(command, data, error), 3) == (match data {
            Some(data) => data_document(data),
            None => JsonView::Null,
        }),
        value_at(document(command, data, error), 4) == failure_document(error),
{
    assert(keys(document(command, data, error)) =~= seq![
        "schema_version"@,
        "command"@,
        "ok"@,
        "data"@,
        "error"@,
    ]);
}

/// The text of a listing is that of each device that was found, supported or not, one after the
/// other: what is listed first, and then what is listed after it. A device is told on two lines,
/// with its node, vendor and product, name and support on the first, and its selector on the
/// second.
pub proof fn a_listing_tells_every_device(
    devices: Seq<DeviceView>,
    more: Seq<DeviceView>,
    device: DeviceView,
)
    ensures
        listing_lines(Seq::<DeviceView>::empty()) == Seq::<char>::empty(),
        listing_lines(seq![device]) == device.path + "  "@ + device.vendor_id + ":"@
            + device.product_id + "  "@ + device.name + "  ["@ + device.support + "]\n  "@
            + device.selector + "\n"@,
        listing_lines(devices + more) == listing_lines(devices) + listing_lines(more),
    decreases more.len(),
{
    reveal_with_fuel(listing_lines, 2);
    assert(seq![device].drop_last() =~= seq![]);
    let lines = device.path + "  "@ + device.vendor_id + ":"@ + device.product_id + "  "@
        + device.name + "  ["@ + device.support + "]\n  "@ + device.selector + "\n"@;
    assert(Seq::<char>::empty() + lines =~= lines);
    assert(listing_lines(seq![device]) =~= lines);
    if more.len() == 0 {
        assert(devices + more =~= devices);
        assert(listing_lines(devices) + listing_lines(more) =~= listing_lines(devices));
    } else {
        a_listing_tells_every_device(devices, more.drop_last(), device);
        assert((devices + more).drop_last() =~= devices + more.drop_last());
        assert(listing_lines(devices + more) =~= listing_lines(devices) + listing_lines(more));
    }
}

/// The text of changes is one line for each, one after the other, with the setting and both values.
pub proof fn every_change_has_its_line(
    changes: Seq<ChangeView>,
    more: Seq<ChangeView>,
    change: ChangeView,
)
    ensures
        change_lines(Seq::<ChangeView>::empty()) == Seq::<char>::empty(),
        change_lines(seq![change]) == "  "@ + change.setting + ": "@ + decimal(
            change.before_raw as nat,
        ) + " -> "@ + decimal(change.after_raw as nat) + " (raw)\n"@,
        change_lines(changes + more) == change_lines(changes) + change_lines(more),
    decreases more.len(),
{
    reveal_with_fuel(change_lines, 2);
    assert(seq![change].drop_last() =~= seq![]);
    let line = "  "@ + change.setting + ": "@ + decimal(change.before_raw as nat) + " -> "@
        + decimal(change.after_raw as nat) + " (raw)\n"@;
    assert(Seq::<char>::empty() + line =~= line);
    assert(change_lines(seq![change]) =~= line);
    if more.len() == 0 {
        assert(changes + more =~= changes);
        assert(change_lines(changes) + change_lines(more) =~= change_lines(changes));
    } else {
        every_change_has_its_line(changes, more.drop_last(), change);
        assert((changes + more).drop_last() =~= changes + more.drop_last());
        assert(change_lines(changes + more) =~= change_lines(changes) + change_lines(more));
    }
}

/// The word for a switch.
pub open spec fn on_or_off(on: bool) -> Seq<char> {
    if on {
        "on"@
    } else {
        "off"@
    }
}

/// The text of a reading is the node and the four settings, each on a line with its name, and what
/// is known of their units.
pub proof fn a_reading_tells_every_setting(device: DeviceView, settings: Settings)
    ensures
        settings_lines(settings) == "press_threshold: "@ + decimal(settings.press_threshold as nat)
            + "\nrelease_threshold: "@ + decimal(settings.release_threshold as nat)
            + "\ndrag_release_threshold: "@ + decimal(settings.drag_release_threshold as nat)
            + "\nhaptics: "@ + quoted(on_or_off(settings.haptics)) + "\n"@,
        human_text(DataView::Reading { device, settings }) == device.path + "\n"@ + settings_lines(
            settings,
        )
            + "Raw unsigned 16-bit units (0..65535); firmware ranges unknown. Both releases must be below press.\n"@
            + "Haptics: vendor bit 8 (hardware behavior unverified here). Haptic level: unavailable; physical interpretation unverified.\n"@,
{
}

/// In words, a listing is the text of all devices, or says that there are none; an update is the
/// node and the text of its report.
pub proof fn words_tell_the_data(devices: Seq<DeviceView>, device: DeviceView, report: ReportView)
    ensures
        human_text(DataView::Devices(devices)) == (if devices.len() == 0 {
            "No hidraw devices found.\n"@
        } else {
            listing_lines(devices)
        }),
        human_text(DataView::Updated { device, report }) == device.path + "\n"@ + report_lines(
            report,
        ),
{
}

/// Observed settings are told as one JSON object with their names, or as null.
pub proof fn observed_settings_are_told(settings: Settings)
    ensures
        settings_text(None) == "null"@,
        settings_text(Some(settings)) == "{"@ + quoted("press_threshold"@) + ":"@ + decimal(
            settings.press_threshold as nat,
        ) + ","@ + quoted("release_threshold"@) + ":"@ + decimal(settings.release_threshold as nat)
            + ","@ + quoted("drag_release_threshold"@) + ":"@ + decimal(
            settings.drag_release_threshold as nat,
        ) + ","@ + quoted("haptics"@) + ":"@ + quoted(on_or_off(settings.haptics)) + "}"@,
{
}

/// The text of a report begins with its status and a line for every planned change. A dry run says
/// that nothing was set. A rollback says its status. A failed update says how many changes were
/// verified and what was observed at last, and its rollback what went wrong with it.
pub proof fn a_report_is_told_in_words(report: ReportView)
    ensures
        ({
            let begin = report.status + "\n"@ + change_lines(report.planned);
            let observed = "Verified forward changes: "@ + decimal(report.verified.len())
                + ". Observed after recovery: "@ + settings_text(report.observed_after) + "\n"@;
            let text = report_lines(report);
            if report.status == "dry_run"@ && report.rollback is None {
                text == begin + "Query feature reports only; no parameter mutations.\n"@
            } else if report.status == "failed"@ {
                match report.rollback {
                    None => text == begin + observed,
                    Some(rollback) => match rollback.error {
                        None => text == begin + ("Rollback: "@ + rollback.status + "\n"@)
                            + observed,
                        Some(error) => text == begin + ("Rollback: "@ + rollback.status + "\n"@) + (
                        observed + ("Rollback detail: "@ + error.message + "\n"@)),
                    },
                }
            } else {
                report.status != "dry_run"@ && report.rollback is None ==> text == begin
            }
        }),
{
    reveal_strlit("dry_run");
    reveal_strlit("failed");
    assert("dry_run"@.len() == 7 && "failed"@.len() == 6);
    let begin = report.status + "\n"@ + change_lines(report.planned);
    let none = Seq::<char>::empty();
    assert(begin + none =~= begin);
    let observed = "Verified forward changes: "@ + decimal(report.verified.len())
        + ". Observed after recovery: "@ + settings_text(report.observed_after) + "\n"@;
    assert(observed + none =~= observed);
    if report.status == "dry_run"@ {
        let noted = begin + "Query feature reports only; no parameter mutations.\n"@;
        assert(noted + none =~= noted);
    }
}

/// What is printed: a failure on the standard error with its kind and message, and its exit code;
/// without one nothing there, and zero. On the standard output the document where JSON is asked for,
/// and otherwise the data in words, or nothing where there are none.
pub proof fn the_outcome_is_printed(
    json_output: bool,
    command: Seq<char>,
    data: Option<DataView>,
    error: Option<ErrorView>,
)
    ensures
        emitted(json_output, command, data, error).exit_code == (match error {
            Some(error) => error.exit_code,
            None => 0u8,
        }),
        emitted(json_output, command, data, error).diagnostic == (match error {
            Some(error) => Some("elan-haptune: "@ + error.kind + ": "@ + error.message),
            None => None::<Seq<char>>,
        }),
        json_output ==> emitted(json_output, command, data, error).output == OutputView::Document(
            document(command, data, error),
        ),
        !json_output ==> match data {
            Some(data) => emitted(json_output, command, Some(data), error).output
                == OutputView::Words(human_text(data)),
            None => emitted(json_output, command, data, error).output is Silence,
        },
{
}

} // verus!
