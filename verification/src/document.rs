//! What the program says, as JSON values.
use vstd::prelude::*;

use crate::device::{device_views, Device, DeviceView};
use crate::elan::{change_views, Change, ChangeView, Settings};
use crate::error::{Error, ErrorView};
use crate::json::{item_views, number_value, text_value, Fields, Json, JsonView};
use crate::update::{failure_view, ReportView, Rollback, RollbackView, UpdateReport};

verus! {

/// What a command comes to.
#[derive(Debug)]
pub enum Data {
    /// The devices of the system.
    Devices(Vec<Device>),
    /// The settings of a device.
    Reading { device: Device, settings: Settings },
    /// How an update of a device went.
    Updated { device: Device, report: UpdateReport },
}

/// What [`Data`] say.
#[verifier::ext_equal]
pub enum DataView {
    Devices(Seq<DeviceView>),
    Reading { device: DeviceView, settings: Settings },
    Updated { device: DeviceView, report: ReportView },
}

impl View for Data {
    type V = DataView;

    open spec fn view(&self) -> DataView {
        match *self {
            Data::Devices(devices) => DataView::Devices(device_views(devices@)),
            Data::Reading { device, settings } => DataView::Reading { device: device@, settings },
            Data::Updated { device, report } => DataView::Updated {
                device: device@,
                report: report@,
            },
        }
    }
}

/// A switch in words.
pub open spec fn switch(on: bool) -> Seq<char> {
    if on {
        "on"@
    } else {
        "off"@
    }
}

pub(crate) fn switch_text(on: bool) -> (text: &'static str)
    ensures
        text@ == switch(on),
{
    if on {
        "on"
    } else {
        "off"
    }
}

pub open spec fn settings_document(settings: Settings) -> JsonView {
    JsonView::Object(
        seq![
            ("press_threshold"@, JsonView::Number(settings.press_threshold as nat)),
            ("release_threshold"@, JsonView::Number(settings.release_threshold as nat)),
            ("drag_release_threshold"@, JsonView::Number(settings.drag_release_threshold as nat)),
            ("haptics"@, JsonView::Text(switch(settings.haptics))),
        ],
    )
}

pub fn settings_json(settings: &Settings) -> (json: Json)
    ensures
        json@ == settings_document(*settings),
{
    let fields = Fields::new().with(
        "press_threshold",
        number_value(settings.press_threshold as u64),
    ).with("release_threshold", number_value(settings.release_threshold as u64)).with(
        "drag_release_threshold",
        number_value(settings.drag_release_threshold as u64),
    ).with("haptics", text_value(switch_text(settings.haptics)));
    assert(fields@ =~= settings_document(*settings)->Object_0);
    fields.object()
}

pub open spec fn error_document(error: ErrorView) -> JsonView {
    JsonView::Object(
        seq![
            ("kind"@, JsonView::Text(error.kind)),
            ("message"@, JsonView::Text(error.message)),
            ("exit_code"@, JsonView::Number(error.exit_code as nat)),
        ],
    )
}

pub fn error_json(error: &Error) -> (json: Json)
    ensures
        json@ == error_document(error@),
{
    let fields = Fields::new().with("kind", text_value(error.kind)).with(
        "message",
        text_value(error.message.as_str()),
    ).with("exit_code", number_value(error.exit_code as u64));
    assert(fields@ =~= error_document(error@)->Object_0);
    fields.object()
}

/// A failure, or null where there is none.
pub open spec fn failure_document(error: Option<ErrorView>) -> JsonView {
    match error {
        Some(error) => error_document(error),
        None => JsonView::Null,
    }
}

fn failure_json(error: &Option<Error>) -> (json: Json)
    ensures
        json@ == failure_document(failure_view(*error)),
{
    match error {
        Some(error) => error_json(error),
        None => Json::Null,
    }
}

pub open spec fn change_document(change: ChangeView) -> JsonView {
    JsonView::Object(
        seq![
            ("setting"@, JsonView::Text(change.setting)),
            ("before_raw"@, JsonView::Number(change.before_raw as nat)),
            ("after_raw"@, JsonView::Number(change.after_raw as nat)),
        ],
    )
}

pub open spec fn changes_document(changes: Seq<ChangeView>) -> JsonView {
    JsonView::List(changes.map_values(|change: ChangeView| change_document(change)))
}

fn change_json(change: &Change) -> (json: Json)
    ensures
        json@ == change_document(change@),
{
    let fields = Fields::new().with("setting", text_value(change.setting)).with(
        "before_raw",
        number_value(change.before_raw as u64),
    ).with("after_raw", number_value(change.after_raw as u64));
    assert(fields@ =~= change_document(change@)->Object_0);
    fields.object()
}

fn changes_json(changes: &Vec<Change>) -> (json: Json)
    ensures
        json@ == changes_document(change_views(changes@)),
{
    let ghost shown = change_views(changes@).map_values(
        |change: ChangeView| change_document(change),
    );
    let mut items: Vec<Json> = Vec::new();
    let mut i: usize = 0;
    assert(item_views(items@) =~= shown.take(0));
    while i < changes.len()
        invariant
            i <= changes@.len(),
            shown == change_views(changes@).map_values(
                |change: ChangeView| change_document(change),
            ),
            item_views(items@) == shown.take(i as int),
        decreases changes@.len() - i,
    {
        let ghost earlier = items@;
        items.push(change_json(&changes[i]));
        assert(items@.drop_last() =~= earlier);
        assert(item_views(items@) =~= shown.take(i + 1));
        i = i + 1;
    }
    assert(shown.take(i as int) =~= shown);
    Json::List(items)
}

pub open spec fn rollback_document(rollback: RollbackView) -> JsonView {
    JsonView::Object(
        seq![
            ("status"@, JsonView::Text(rollback.status)),
            ("attempted"@, changes_document(rollback.attempted)),
            ("verified"@, changes_document(rollback.verified)),
            ("error"@, failure_document(rollback.error)),
        ],
    )
}

fn rollback_json(rollback: &Rollback) -> (json: Json)
    ensures
        json@ == rollback_document(rollback@),
{
    let fields = Fields::new().with("status", text_value(rollback.status)).with(
        "attempted",
        changes_json(&rollback.attempted),
    ).with("verified", changes_json(&rollback.verified)).with(
        "error",
        failure_json(&rollback.error),
    );
    assert(fields@ =~= rollback_document(rollback@)->Object_0);
    fields.object()
}

pub open spec fn report_document(report: ReportView) -> JsonView {
    JsonView::Object(
        seq![
            ("status"@, JsonView::Text(report.status)),
            ("before"@, settings_document(report.before)),
            ("requested"@, settings_document(report.requested)),
            (
                "observed_after"@,
                match report.observed_after {
                    Some(settings) => settings_document(settings),
                    None => JsonView::Null,
                },
            ),
            ("planned"@, changes_document(report.planned)),
            ("attempted"@, changes_document(report.attempted)),
            ("verified"@, changes_document(report.verified)),
            ("error"@, failure_document(report.error)),
            (
                "rollback"@,
                match report.rollback {
                    Some(rollback) => rollback_document(rollback),
                    None => JsonView::Null,
                },
            ),
        ],
    )
}

pub fn report_json(report: &UpdateReport) -> (json: Json)
    ensures
        json@ == report_document(report@),
{
    let observed = match &report.observed_after {
        Some(settings) => settings_json(settings),
        None => Json::Null,
    };
    let rollback = match &report.rollback {
        Some(rollback) => rollback_json(rollback),
        None => Json::Null,
    };
    let fields = Fields::new().with("status", text_value(report.status)).with(
        "before",
        settings_json(&report.before),
    ).with("requested", settings_json(&report.requested)).with("observed_after", observed).with(
        "planned",
        changes_json(&report.planned),
    ).with("attempted", changes_json(&report.attempted)).with(
        "verified",
        changes_json(&report.verified),
    ).with("error", failure_json(&report.error)).with("rollback", rollback);
    assert(fields@ =~= report_document(report@)->Object_0);
    fields.object()
}

pub open spec fn device_document(device: DeviceView) -> JsonView {
    JsonView::Object(
        seq![
            ("path"@, JsonView::Text(device.path)),
            ("selector"@, JsonView::Text(device.selector)),
            ("name"@, JsonView::Text(device.name)),
            ("bus"@, JsonView::Number(device.bus as nat)),
            ("vendor_id"@, JsonView::Text(device.vendor_id)),
            ("product_id"@, JsonView::Text(device.product_id)),
            ("physical_path"@, JsonView::Text(device.physical_path)),
            ("support"@, JsonView::Text(device.support)),
        ],
    )
}

pub fn device_json(device: &Device) -> (json: Json)
    ensures
        json@ == device_document(device@),
{
    let fields = Fields::new().with("path", text_value(device.path.as_str())).with(
        "selector",
        text_value(device.selector.as_str()),
    ).with("name", text_value(device.name.as_str())).with("bus", number_value(device.bus as u64)).with(
        "vendor_id",
        text_value(device.vendor_id.as_str()),
    ).with("product_id", text_value(device.product_id.as_str())).with(
        "physical_path",
        text_value(device.physical_path.as_str()),
    ).with("support", text_value(device.support));
    assert(fields@ =~= device_document(device@)->Object_0);
    fields.object()
}

/// What can be read and set, in which units. The limits of the firmware are not known.
pub open spec fn capabilities_document() -> JsonView {
    JsonView::Object(
        seq![
            ("units"@, JsonView::Text("device_raw"@)),
            ("firmware_ranges"@, JsonView::Null),
            ("cli_threshold_bounds"@, JsonView::Null),
            (
                "threshold_encoding"@,
                JsonView::Object(
                    seq![
                        ("type"@, JsonView::Text("u16"@)),
                        ("min"@, JsonView::Number(0)),
                        ("max"@, JsonView::Number(65535)),
                    ],
                ),
            ),
            (
                "constraints"@,
                JsonView::Text(
                    "both releases strictly below press; unspecified values preserved"@,
                ),
            ),
            (
                "haptics"@,
                JsonView::Object(
                    seq![
                        ("read"@, JsonView::Bool(true)),
                        ("write"@, JsonView::Bool(true)),
                        (
                            "evidence"@,
                            JsonView::Text(
                                "vendor bit 8; not hardware-validated by this project"@,
                            ),
                        ),
                    ],
                ),
            ),
            (
                "haptic_level"@,
                JsonView::Object(
                    seq![
                        ("read"@, JsonView::Bool(false)),
                        ("write"@, JsonView::Bool(false)),
                        (
                            "reason"@,
                            JsonView::Text(
                                "physical interpretation and safe target behavior unverified"@,
                            ),
                        ),
                    ],
                ),
            ),
        ],
    )
}

pub fn capabilities() -> (json: Json)
    ensures
        json@ == capabilities_document(),
{
    let ghost whole = capabilities_document()->Object_0;
    let encoding = Fields::new().with("type", text_value("u16")).with("min", number_value(0)).with(
        "max",
        number_value(65535),
    );
    assert(encoding@ =~= whole[3].1->Object_0);
    let haptics = Fields::new().with("read", Json::Bool(true)).with("write", Json::Bool(true)).with(
        "evidence",
        text_value("vendor bit 8; not hardware-validated by this project"),
    );
    assert(haptics@ =~= whole[5].1->Object_0);
    let level = Fields::new().with("read", Json::Bool(false)).with("write", Json::Bool(false)).with(
        "reason",
        text_value("physical interpretation and safe target behavior unverified"),
    );
    assert(level@ =~= whole[6].1->Object_0);
    let fields = Fields::new().with("units", text_value("device_raw")).with(
        "firmware_ranges",
        Json::Null,
    ).with("cli_threshold_bounds", Json::Null).with(
        "threshold_encoding",
        encoding.object(),
    ).with(
        "constraints",
        text_value("both releases strictly below press; unspecified values preserved"),
    ).with("haptics", haptics.object()).with("haptic_level", level.object());
    assert(fields@ =~= whole);
    fields.object()
}

/// What a command came to.
pub open spec fn data_document(data: DataView) -> JsonView {
    match data {
        DataView::Devices(devices) => JsonView::Object(
            seq![
                (
                    "devices"@,
                    JsonView::List(
                        devices.map_values(|device: DeviceView| device_document(device)),
                    ),
                ),
            ],
        ),
        DataView::Reading { device, settings } => JsonView::Object(
            seq![
                ("device"@, device_document(device)),
                ("settings"@, settings_document(settings)),
                ("capabilities"@, capabilities_document()),
            ],
        ),
        DataView::Updated { device, report } => JsonView::Object(
            seq![
                ("device"@, device_document(device)),
                ("update"@, report_document(report)),
            ],
        ),
    }
}

fn devices_json(devices: &Vec<Device>) -> (json: Json)
    ensures
        json@ == JsonView::List(
            device_views(devices@).map_values(|device: DeviceView| device_document(device)),
        ),
{
    let ghost shown = device_views(devices@).map_values(
        |device: DeviceView| device_document(device),
    );
    let mut items: Vec<Json> = Vec::new();
    let mut i: usize = 0;
    assert(item_views(items@) =~= shown.take(0));
    while i < devices.len()
        invariant
            i <= devices@.len(),
            shown == device_views(devices@).map_values(
                |device: DeviceView| device_document(device),
            ),
            item_views(items@) == shown.take(i as int),
        decreases devices@.len() - i,
    {
        let ghost earlier = items@;
        items.push(device_json(&devices[i]));
        assert(items@.drop_last() =~= earlier);
        assert(item_views(items@) =~= shown.take(i + 1));
        i = i + 1;
    }
    assert(shown.take(i as int) =~= shown);
    Json::List(items)
}

pub fn data_json(data: &Data) -> (json: Json)
    ensures
        json@ == data_document(data@),
{
    let fields = match data {
        Data::Devices(devices) => Fields::new().with("devices", devices_json(devices)),
        Data::Reading { device, settings } => Fields::new().with("device", device_json(device)).with(
            "settings",
            settings_json(settings),
        ).with("capabilities", capabilities()),
        Data::Updated { device, report } => Fields::new().with("device", device_json(device)).with(
            "update",
            report_json(report),
        ),
    };
    assert(fields@ =~= data_document(data@)->Object_0);
    fields.object()
}

/// The one object that a command writes. Without data, and without a failure, it says null.
pub open spec fn document(
    command: Seq<char>,
    data: Option<DataView>,
    error: Option<ErrorView>,
) -> JsonView {
    JsonView::Object(
        seq![
            ("schema_version"@, JsonView::Number(1)),
            ("command"@, JsonView::Text(command)),
            ("ok"@, JsonView::Bool(error is None)),
            (
                "data"@,
                match data {
                    Some(data) => data_document(data),
                    None => JsonView::Null,
                },
            ),
            ("error"@, failure_document(error)),
        ],
    )
}

pub open spec fn data_view(data: Option<Data>) -> Option<DataView> {
    match data {
        Some(data) => Some(data@),
        None => None,
    }
}

pub fn document_json(command: &str, data: &Option<Data>, error: &Option<Error>) -> (json: Json)
    ensures
        json@ == document(command@, data_view(*data), failure_view(*error)),
{
    let shown = match data {
        Some(data) => data_json(data),
        None => Json::Null,
    };
    let fields = Fields::new().with("schema_version", number_value(1)).with(
        "command",
        text_value(command),
    ).with("ok", Json::Bool(error.is_none())).with("data", shown).with(
        "error",
        failure_json(error),
    );
    assert(fields@ =~= document(command@, data_view(*data), failure_view(*error))->Object_0);
    fields.object()
}

} // verus!
