//! The commands of the program, and what it prints.
use vstd::prelude::*;
use vstd::string::StringExecFns;

use crate::device::{
    all_described, device_views, discover, discovered, Device, DeviceView, HidrawEntry, Listing,
};
use crate::document::{
    data_view, document, document_json, switch, switch_text, Data, DataView,
};
use crate::elan::{
    change_views, hysteresis, is_snapshot, shown_settings, snapshot_outcome, state_outcome,
    target_outcome, update_check, Change, ChangeView, Settings, State, Update,
};
use crate::error::{outcome, Error, ErrorView, OsError};
use crate::json::{four_members, object_text, quoted, string_text, Json, JsonView};
use crate::opener::{Access, Opener};
use crate::protocol::{added, continues, joined, Exchange, FeatureIo, Protocol, Record};
use crate::selection::{
    accessed_since, candidates_outcome, form_of, is_selection, opens_candidates, select_from,
    selected_outcome, selector_view, Chosen, SelectorForm,
};
use crate::text::{decimal, decimal_text, same};
use crate::update::{applied, apply, failure_view, report_outcome, ReportView, Run, UpdateReport};

verus! {

/// A device as a listing shows it, on two lines.
pub open spec fn device_lines(device: DeviceView) -> Seq<char> {
    device.path + "  "@ + device.vendor_id + ":"@ + device.product_id + "  "@ + device.name
        + "  ["@ + device.support + "]\n  "@ + device.selector + "\n"@
}

pub open spec fn listing_lines(devices: Seq<DeviceView>) -> Seq<char>
    decreases devices.len(),
{
    if devices.len() == 0 {
        seq![]
    } else {
        listing_lines(devices.drop_last()) + device_lines(devices.last())
    }
}

/// The settings of a device, one to a line, each value as JSON shows it.
pub open spec fn settings_lines(settings: Settings) -> Seq<char> {
    "press_threshold: "@ + decimal(settings.press_threshold as nat) + "\nrelease_threshold: "@
        + decimal(settings.release_threshold as nat) + "\ndrag_release_threshold: "@ + decimal(
        settings.drag_release_threshold as nat,
    ) + "\nhaptics: "@ + quoted(switch(settings.haptics)) + "\n"@
}

/// A planned change on a line.
pub open spec fn change_line(change: ChangeView) -> Seq<char> {
    "  "@ + change.setting + ": "@ + decimal(change.before_raw as nat) + " -> "@ + decimal(
        change.after_raw as nat,
    ) + " (raw)\n"@
}

pub open spec fn change_lines(changes: Seq<ChangeView>) -> Seq<char>
    decreases changes.len(),
{
    if changes.len() == 0 {
        seq![]
    } else {
        change_lines(changes.drop_last()) + change_line(changes.last())
    }
}

pub open spec fn setting_names() -> Seq<Seq<char>> {
    seq!["press_threshold"@, "release_threshold"@, "drag_release_threshold"@, "haptics"@]
}

/// Settings as one JSON object, or null where there are none.
pub open spec fn settings_text(settings: Option<Settings>) -> Seq<char> {
    match settings {
        Some(settings) => four_members(
            setting_names(),
            seq![
                settings.press_threshold,
                settings.release_threshold,
                settings.drag_release_threshold,
            ],
            switch(settings.haptics),
        ),
        None => "null"@,
    }
}

/// How an update went, in words.
pub open spec fn report_lines(report: ReportView) -> Seq<char> {
    report.status + "\n"@ + change_lines(report.planned) + (if report.status == "dry_run"@ {
        "Query feature reports only; no parameter mutations.\n"@
    } else {
        seq![]
    }) + (match report.rollback {
        Some(rollback) => "Rollback: "@ + rollback.status + "\n"@,
        None => seq![],
    }) + (if report.status == "failed"@ {
        "Verified forward changes: "@ + decimal(report.verified.len())
            + ". Observed after recovery: "@ + settings_text(report.observed_after) + "\n"@ + (
        match report.rollback {
            Some(rollback) => match rollback.error {
                Some(error) => "Rollback detail: "@ + error.message + "\n"@,
                None => seq![],
            },
            None => seq![],
        })
    } else {
        seq![]
    })
}

/// What a command came to, in words.
pub open spec fn human_text(data: DataView) -> Seq<char> {
    match data {
        DataView::Devices(devices) => if devices.len() == 0 {
            "No hidraw devices found.\n"@
        } else {
            listing_lines(devices)
        },
        DataView::Reading { device, settings } => device.path + "\n"@ + settings_lines(settings)
            + "Raw unsigned 16-bit units (0..65535); firmware ranges unknown. Both releases must be below press.\n"@
            + "Haptics: vendor bit 8 (hardware behavior unverified here). Haptic level: unavailable; physical interpretation unverified.\n"@,
        DataView::Updated { device, report } => device.path + "\n"@ + report_lines(report),
    }
}

fn device_text(device: &Device) -> (text: String)
    ensures
        text@ == device_lines(device@),
{
    String::from_str(device.path.as_str()).concat("  ").concat(device.vendor_id.as_str()).concat(
        ":",
    ).concat(device.product_id.as_str()).concat("  ").concat(device.name.as_str()).concat(
        "  [",
    ).concat(device.support).concat("]\n  ").concat(device.selector.as_str()).concat("\n")
}

fn listing_text(devices: &Vec<Device>) -> (text: String)
    ensures
        text@ == listing_lines(device_views(devices@)),
{
    let ghost views = device_views(devices@);
    let mut text = String::new();
    let mut i: usize = 0;
    assert(views.take(0) =~= seq![]);
    while i < devices.len()
        invariant
            i <= devices@.len(),
            views == device_views(devices@),
            text@ == listing_lines(views.take(i as int)),
        decreases devices@.len() - i,
    {
        assert(views.take(i + 1).drop_last() =~= views.take(i as int));
        text.append(device_text(&devices[i]).as_str());
        i = i + 1;
    }
    assert(views.take(i as int) =~= views);
    text
}

fn settings_lines_text(settings: &Settings) -> (text: String)
    ensures
        text@ == settings_lines(*settings),
{
    String::from_str("press_threshold: ").concat(
        decimal_text(settings.press_threshold as u64).as_str(),
    ).concat("\nrelease_threshold: ").concat(
        decimal_text(settings.release_threshold as u64).as_str(),
    ).concat("\ndrag_release_threshold: ").concat(
        decimal_text(settings.drag_release_threshold as u64).as_str(),
    ).concat("\nhaptics: ").concat(string_text(switch_text(settings.haptics)).as_str()).concat("\n")
}

fn change_lines_text(changes: &Vec<Change>) -> (text: String)
    ensures
        text@ == change_lines(change_views(changes@)),
{
    let ghost views = change_views(changes@);
    let mut text = String::new();
    let mut i: usize = 0;
    assert(views.take(0) =~= seq![]);
    while i < changes.len()
        invariant
            i <= changes@.len(),
            views == change_views(changes@),
            text@ == change_lines(views.take(i as int)),
        decreases changes@.len() - i,
    {
        assert(views.take(i + 1).drop_last() =~= views.take(i as int));
        let change = changes[i];
        let line = String::from_str("  ").concat(change.setting).concat(": ").concat(
            decimal_text(change.before_raw as u64).as_str(),
        ).concat(" -> ").concat(decimal_text(change.after_raw as u64).as_str()).concat(" (raw)\n");
        assert(line@ == change_line(views[i as int]));
        text.append(line.as_str());
        i = i + 1;
    }
    assert(views.take(i as int) =~= views);
    text
}

fn settings_object_text(settings: &Option<Settings>) -> (text: String)
    ensures
        text@ == settings_text(*settings),
{
    match settings {
        Some(settings) => {
            let names: [&str; 4] = [
                "press_threshold",
                "release_threshold",
                "drag_release_threshold",
                "haptics",
            ];
            let numbers: [u16; 3] = [
                settings.press_threshold,
                settings.release_threshold,
                settings.drag_release_threshold,
            ];
            proof {
                reveal_strlit("press_threshold");
                reveal_strlit("release_threshold");
                reveal_strlit("drag_release_threshold");
                reveal_strlit("haptics");
                assert(names@[0]@.len() == 15);
                assert(names@[1]@.len() == 17);
                assert(names@[2]@.len() == 22);
                assert(names@[3]@.len() == 7);
                assert(names@.map_values(|name: &str| name@) =~= setting_names());
                assert(numbers@ =~= seq![
                    settings.press_threshold,
                    settings.release_threshold,
                    settings.drag_release_threshold,
                ]);
            }
            object_text(names, numbers, switch_text(settings.haptics))
        },
        None => String::from_str("null"),
    }
}

fn report_text(report: &UpdateReport) -> (text: String)
    ensures
        text@ == report_lines(report@),
{
    let failed = same(report.status, "failed");
    let mut text = String::from_str(report.status).concat("\n").concat(
        change_lines_text(&report.planned).as_str(),
    );
    if same(report.status, "dry_run") {
        text.append("Query feature reports only; no parameter mutations.\n");
    } else {
        assert(text@ =~= text@ + Seq::<char>::empty());
    }
    match &report.rollback {
        Some(rollback) => {
            let line = String::from_str("Rollback: ").concat(rollback.status).concat("\n");
            text.append(line.as_str());
        },
        None => {
            assert(text@ =~= text@ + Seq::<char>::empty());
        },
    }
    if failed {
        let mut detail = String::new();
        if let Some(rollback) = &report.rollback {
            if let Some(error) = &rollback.error {
                detail = String::from_str("Rollback detail: ").concat(
                    error.message.as_str(),
                ).concat("\n");
            }
        }
        let lines = String::from_str("Verified forward changes: ").concat(
            decimal_text(report.verified.len() as u64).as_str(),
        ).concat(". Observed after recovery: ").concat(
            settings_object_text(&report.observed_after).as_str(),
        ).concat("\n").concat(detail.as_str());
        text.append(lines.as_str());
    } else {
        assert(text@ =~= text@ + Seq::<char>::empty());
    }
    text
}

/// Puts in words what a command came to.
pub fn human(data: &Data) -> (text: String)
    ensures
        text@ == human_text(data@),
{
    match data {
        Data::Devices(devices) => {
            if devices.len() == 0 {
                String::from_str("No hidraw devices found.\n")
            } else {
                listing_text(devices)
            }
        },
        Data::Reading { device, settings } => String::from_str(device.path.as_str()).concat(
            "\n",
        ).concat(settings_lines_text(settings).as_str()).concat(
            "Raw unsigned 16-bit units (0..65535); firmware ranges unknown. Both releases must be below press.\n",
        ).concat(
            "Haptics: vendor bit 8 (hardware behavior unverified here). Haptic level: unavailable; physical interpretation unverified.\n",
        ),
        Data::Updated { device, report } => String::from_str(device.path.as_str()).concat(
            "\n",
        ).concat(report_text(report).as_str()),
    }
}

/// What goes to the standard output.
#[derive(Debug)]
pub enum Output {
    /// One JSON value on a line.
    Document(Json),
    /// Text as it stands.
    Words(String),
    /// Nothing.
    Silence,
}

/// What the program prints, and its exit code.
#[derive(Debug)]
pub struct Emission {
    pub exit_code: u8,
    /// A line for the standard error.
    pub diagnostic: Option<String>,
    pub output: Output,
}

/// What [`Output`] says.
#[verifier::ext_equal]
pub enum OutputView {
    Document(JsonView),
    Words(Seq<char>),
    Silence,
}

/// What an [`Emission`] says.
#[verifier::ext_equal]
pub struct EmissionView {
    pub exit_code: u8,
    pub diagnostic: Option<Seq<char>>,
    pub output: OutputView,
}

impl View for Output {
    type V = OutputView;

    open spec fn view(&self) -> OutputView {
        match *self {
            Output::Document(json) => OutputView::Document(json@),
            Output::Words(text) => OutputView::Words(text@),
            Output::Silence => OutputView::Silence,
        }
    }
}

impl View for Emission {
    type V = EmissionView;

    open spec fn view(&self) -> EmissionView {
        EmissionView {
            exit_code: self.exit_code,
            diagnostic: match self.diagnostic {
                Some(line) => Some(line@),
                None => None,
            },
            output: self.output@,
        }
    }
}

/// What the program prints. A failure goes to the standard error and sets the exit code; without
/// one it is zero. The standard output gets one JSON object, or the data in words, or nothing
/// where there are no data.
pub open spec fn emitted(
    json_output: bool,
    command: Seq<char>,
    data: Option<DataView>,
    error: Option<ErrorView>,
) -> EmissionView {
    EmissionView {
        exit_code: match error {
            Some(error) => error.exit_code,
            None => 0,
        },
        diagnostic: match error {
            Some(error) => Some("elan-haptune: "@ + error.kind + ": "@ + error.message),
            None => None,
        },
        output: if json_output {
            OutputView::Document(document(command, data, error))
        } else {
            match data {
                Some(data) => OutputView::Words(human_text(data)),
                None => OutputView::Silence,
            }
        },
    }
}

/// Decides what the program prints and how it exits.
pub fn emit(
    json_output: bool,
    command: &str,
    data: &Option<Data>,
    error: &Option<Error>,
) -> (emission: Emission)
    ensures
        emission@ == emitted(json_output, command@, data_view(*data), failure_view(*error)),
{
    let exit_code = match error {
        Some(error) => error.exit_code,
        None => 0,
    };
    let diagnostic = match error {
        Some(error) => Some(
            String::from_str("elan-haptune: ").concat(error.kind).concat(": ").concat(
                error.message.as_str(),
            ),
        ),
        None => None,
    };
    let output = if json_output {
        Output::Document(document_json(command, data, error))
    } else {
        match data {
            Some(data) => Output::Words(human(data)),
            None => Output::Silence,
        }
    };
    Emission { exit_code, diagnostic, output }
}

/// A command.
#[derive(Debug)]
pub enum Command {
    /// Show the devices, going by what sysfs says alone.
    List,
    /// Read the settings of a device.
    Get { device: Option<String> },
    /// Change the settings of a device, or only plan to.
    Change { device: Option<String>, dry_run: bool, update: Update },
}

pub open spec fn command_name(command: Command) -> Seq<char> {
    match command {
        Command::List => "list"@,
        Command::Get { .. } => "get"@,
        Command::Change { .. } => "set"@,
    }
}

impl Command {
    pub fn name(&self) -> (name: &'static str)
        ensures
            name@ == command_name(*self),
    {
        match self {
            Command::List => "list",
            Command::Get { .. } => "get",
            Command::Change { .. } => "set",
        }
    }

    /// The selector that the command was given.
    pub fn selector(&self) -> (selector: Option<&str>)
        ensures
            selector_view(selector) == given_selector(*self),
    {
        match self {
            Command::List => None,
            Command::Get { device } => match device {
                Some(device) => Some(device.as_str()),
                None => None,
            },
            Command::Change { device, .. } => match device {
                Some(device) => Some(device.as_str()),
                None => None,
            },
        }
    }

    /// Refuses a command that cannot be carried out on any device.
    pub fn preflight(&self) -> (checked: Result<(), Error>)
        ensures
            outcome(checked) == preflight_outcome(*self),
    {
        match self {
            Command::Change { update, .. } => update.validate(),
            _ => Ok(()),
        }
    }
}

pub open spec fn given_selector(command: Command) -> Option<Seq<char>> {
    match command {
        Command::List => None,
        Command::Get { device: Some(device) } => Some(device@),
        Command::Get { device: None } => None,
        Command::Change { device: Some(device), .. } => Some(device@),
        Command::Change { device: None, .. } => None,
    }
}

/// What can be said of a command before any device is looked at.
pub open spec fn preflight_outcome(command: Command) -> Result<(), ErrorView> {
    match command {
        Command::Change { update, .. } => update_check(update),
        _ => Ok(()),
    }
}

/// A device whose identity was checked.
pub open spec fn compatible(device: DeviceView) -> DeviceView {
    DeviceView { support: "compatible"@, ..device }
}

fn as_compatible(device: Device) -> (checked: Device)
    ensures
        checked@ == compatible(device@),
{
    let mut device = device;
    device.support = "compatible";
    device
}

/// What a command came to, or why it came to nothing.
pub open spec fn data_outcome(data: Result<(Data, Option<Error>), Error>) -> Result<
    (DataView, Option<ErrorView>),
    ErrorView,
> {
    match data {
        Ok((data, error)) => Ok((data@, failure_view(error))),
        Err(error) => Err(error@),
    }
}

/// What reading the settings of a device comes to, going by what was read.
pub open spec fn reading(device: DeviceView, seen: Result<Seq<u16>, ErrorView>) -> Result<
    (DataView, Option<ErrorView>),
    ErrorView,
> {
    match seen {
        Err(error) => Err(error),
        Ok(state) => Ok(
            (
                DataView::Reading {
                    device: compatible(device),
                    settings: shown_settings(state),
                },
                None,
            ),
        ),
    }
}

/// Reads the settings of a device that was selected.
pub fn read_device<T: FeatureIo>(device: Device, io: &mut Protocol<T>) -> (result: Result<
    (Data, Option<Error>),
    Error,
>)
    ensures
        continues(old(io).log(), final(io).log()),
        exists|reads: Seq<Seq<Exchange>>|
            {
                &&& is_snapshot(reads)
                &&& added(old(io).log(), final(io).log()) == #[trigger] joined(reads)
                &&& data_outcome(result) == reading(device@, snapshot_outcome(reads))
            },
{
    let state = State::read(io);
    let ghost reads = choose|reads: Seq<Seq<Exchange>>|
        {
            &&& is_snapshot(reads)
            &&& added(old(io).log(), io.log()) == #[trigger] joined(reads)
            &&& state_outcome(state) == snapshot_outcome(reads)
        };
    assert(is_snapshot(reads) && added(old(io).log(), io.log()) == joined(reads));
    match state {
        Err(error) => Err(error),
        Ok(state) => Ok(
            (Data::Reading { device: as_compatible(device), settings: state.settings() }, None),
        ),
    }
}

/// How a failed update is reported. It is a failure even where the state was restored.
pub open spec fn update_failure(report: ReportView) -> Option<ErrorView> {
    if report.status == "failed"@ {
        Some(
            ErrorView {
                kind: "update_failed"@,
                message: (match report.error {
                    Some(error) => error.message,
                    None => seq![],
                }) + "; rollback: "@ + (match report.rollback {
                    Some(rollback) => rollback.status,
                    None => "not_attempted"@,
                }),
                exit_code: 1,
            },
        )
    } else {
        None
    }
}

fn failed_update(report: &UpdateReport) -> (error: Option<Error>)
    ensures
        failure_view(error) == update_failure(report@),
{
    if !same(report.status, "failed") {
        return None;
    }
    let mut message = String::new();
    if let Some(error) = &report.error {
        message = String::from_str(error.message.as_str());
    }
    let status = match &report.rollback {
        Some(rollback) => rollback.status,
        None => "not_attempted",
    };
    let message = message.concat("; rollback: ").concat(status);
    Some(Error::new(1, "update_failed", message.as_str()))
}

/// What changing the settings of a device comes to, going by how the update went.
pub open spec fn change_outcome(device: DeviceView, result: Result<ReportView, ErrorView>) -> Result<
    (DataView, Option<ErrorView>),
    ErrorView,
> {
    match result {
        Err(error) => Err(error),
        Ok(report) => Ok(
            (
                DataView::Updated { device: compatible(device), report },
                update_failure(report),
            ),
        ),
    }
}

/// Changes the settings of a device that was selected.
pub fn change_device<T: FeatureIo>(
    device: Device,
    io: &mut Protocol<T>,
    update: &Update,
    dry_run: bool,
) -> (result: Result<(Data, Option<Error>), Error>)
    ensures
        continues(old(io).log(), final(io).log()),
        exists|run: Run, report: Result<ReportView, ErrorView>|
            {
                &&& added(old(io).log(), final(io).log()) == #[trigger] run.log()
                &&& #[trigger] applied(*update, dry_run, run, report)
                &&& data_outcome(result) == change_outcome(device@, report)
            },
{
    let report = apply(io, update, dry_run);
    let ghost run = choose|run: Run|
        {
            &&& added(old(io).log(), io.log()) == #[trigger] run.log()
            &&& applied(*update, dry_run, run, report_outcome(report))
        };
    assert(added(old(io).log(), io.log()) == run.log());
    assert(applied(*update, dry_run, run, report_outcome(report)));
    match report {
        Err(error) => Err(error),
        Ok(report) => {
            let error = failed_update(&report);
            Ok((Data::Updated { device: as_compatible(device), report }, error))
        },
    }
}

/// Whether `result` is what a command comes to on the device that was selected, and `log` holds
/// all exchanges with it.
pub open spec fn comes_to(
    command: Command,
    device: DeviceView,
    log: Seq<Exchange>,
    result: Result<(DataView, Option<ErrorView>), ErrorView>,
) -> bool {
    match command {
        Command::List => false,
        Command::Get { .. } => exists|reads: Seq<Seq<Exchange>>|
            {
                &&& log == #[trigger] joined(reads)
                &&& is_snapshot(reads)
                &&& result == reading(device, snapshot_outcome(reads))
            },
        Command::Change { dry_run, update, .. } => exists|
            run: Run,
            report: Result<ReportView, ErrorView>,
        |
            {
                &&& log == #[trigger] run.log()
                &&& #[trigger] applied(update, dry_run, run, report)
                &&& result == change_outcome(device, report)
            },
    }
}

/// Whether `result` is what working with a selected device comes to, and `accessed` all that was
/// opened and closed. Selecting one opens what it has to. The device that was chosen is closed at
/// the end; between its identity check and that, the exchanges of the command go through it and no
/// others.
pub open spec fn is_work(
    command: Command,
    found: Seq<Access>,
    selected: Result<Chosen, ErrorView>,
    accessed: Seq<Access>,
    result: Result<(DataView, Option<ErrorView>), ErrorView>,
) -> bool {
    match selected {
        Err(error) => {
            &&& result == Err::<(DataView, Option<ErrorView>), ErrorView>(error)
            &&& accessed == found
        },
        Ok(chosen) => exists|log: Seq<Exchange>| #[trigger]
            comes_to(command, chosen.device, log, result) && accessed == found.push(
                Access::Closed { log: chosen.left + log },
            ),
    }
}

/// Whether `result` is what a command comes to, and `accessed` all that was opened and closed for
/// it. The command is checked first, then the devices are looked up, then one is selected, and
/// only that one is worked with. A listing opens nothing.
pub open spec fn is_execution<T: FeatureIo, F: Fn(&Device) -> Result<Protocol<T>, Error>>(
    command: Command,
    listing: Listing,
    resolved: Option<Result<String, OsError>>,
    function: F,
    accessed: Seq<Access>,
    result: Result<(DataView, Option<ErrorView>), ErrorView>,
) -> bool {
    match preflight_outcome(command) {
        Err(error) => {
            &&& result == Err::<(DataView, Option<ErrorView>), ErrorView>(error)
            &&& accessed.len() == 0
        },
        Ok(()) => match discovered(listing) {
            Err(error) => {
                &&& result == Err::<(DataView, Option<ErrorView>), ErrorView>(error)
                &&& accessed.len() == 0
            },
            Ok(devices) => if command is List {
                &&& result == Ok::<(DataView, Option<ErrorView>), ErrorView>(
                    (DataView::Devices(devices), None),
                )
                &&& accessed.len() == 0
            } else {
                exists|found: Seq<Access>, selected: Result<Chosen, ErrorView>|
                    {
                        &&& #[trigger] is_selection(
                            devices,
                            given_selector(command),
                            resolved,
                            function,
                            found,
                            selected,
                        )
                        &&& is_work(command, found, selected, accessed, result)
                    }
            },
        },
    }
}

/// Whether a function opens every device that a command may have to open. It need not open any
/// other, and none at all where the command is refused or only lists.
pub open spec fn opens_for<T: FeatureIo, F: Fn(&Device) -> Result<Protocol<T>, Error>>(
    function: F,
    command: Command,
    listing: Listing,
    resolved: Option<Result<String, OsError>>,
) -> bool {
    preflight_outcome(command) is Ok && !(command is List) ==> (discovered(listing) matches Ok(
        devices,
    ) ==> opens_candidates(function, devices, given_selector(command), resolved))
}

/// Reads the settings of a device, and closes it.
fn read_and_close<T: FeatureIo, F: Fn(&Device) -> Result<Protocol<T>, Error>>(
    command: &Command,
    device: Device,
    io: Protocol<T>,
    opener: &mut Opener<F>,
) -> (result: Result<(Data, Option<Error>), Error>)
    requires
        command is Get,
    ensures
        final(opener).function() == old(opener).function(),
        exists|log: Seq<Exchange>| #[trigger]
            comes_to(*command, device@, log, data_outcome(result)) && final(opener).record()
                == old(opener).record().push(Access::Closed { log: io.log() + log }),
{
    let ghost start = io.log();
    let ghost view = device@;
    let mut io = io;
    let result = read_device(device, &mut io);
    let ghost log = added(start, io.log());
    assert(io.log() =~= start + log);
    assert(comes_to(*command, view, log, data_outcome(result)));
    opener.close(io);
    result
}

/// Changes the settings of a device, and closes it.
fn change_and_close<T: FeatureIo, F: Fn(&Device) -> Result<Protocol<T>, Error>>(
    command: &Command,
    update: &Update,
    dry_run: bool,
    device: Device,
    io: Protocol<T>,
    opener: &mut Opener<F>,
) -> (result: Result<(Data, Option<Error>), Error>)
    requires
        command matches Command::Change { update: asked, dry_run: only_plan, .. } && asked
            == *update && only_plan == dry_run,
    ensures
        final(opener).function() == old(opener).function(),
        exists|log: Seq<Exchange>| #[trigger]
            comes_to(*command, device@, log, data_outcome(result)) && final(opener).record()
                == old(opener).record().push(Access::Closed { log: io.log() + log }),
{
    let ghost start = io.log();
    let ghost view = device@;
    let mut io = io;
    let result = change_device(device, &mut io, update, dry_run);
    let ghost log = added(start, io.log());
    assert(io.log() =~= start + log);
    assert(comes_to(*command, view, log, data_outcome(result)));
    opener.close(io);
    result
}

proof fn work_is_done(
    command: Command,
    found: Seq<Access>,
    device: DeviceView,
    start: Record,
    log: Seq<Exchange>,
    result: Result<(DataView, Option<ErrorView>), ErrorView>,
)
    requires
        comes_to(command, device, log, result),
    ensures
        is_work(
            command,
            found,
            Ok(Chosen { device, left: start }),
            found.push(Access::Closed { log: start + log }),
            result,
        ),
{
    let selected: Result<Chosen, ErrorView> = Ok(Chosen { device, left: start });
    let chosen = selected->Ok_0;
    assert(comes_to(command, chosen.device, log, result));
}

/// Selects a device, and carries a command out on it.
fn work<T: FeatureIo, F: Fn(&Device) -> Result<Protocol<T>, Error>>(
    command: &Command,
    devices: Vec<Device>,
    resolved: &Option<Result<String, OsError>>,
    opener: &mut Opener<F>,
) -> (result: Result<(Data, Option<Error>), Error>)
    requires
        !(command is List),
        opens_candidates(
            old(opener).function(),
            device_views(devices@),
            given_selector(*command),
            *resolved,
        ),
    ensures
        final(opener).function() == old(opener).function(),
        old(opener).record().is_prefix_of(final(opener).record()),
        exists|found: Seq<Access>, selected: Result<Chosen, ErrorView>|
            {
                &&& #[trigger] is_selection(
                    device_views(devices@),
                    given_selector(*command),
                    *resolved,
                    old(opener).function(),
                    found,
                    selected,
                )
                &&& is_work(
                    *command,
                    found,
                    selected,
                    accessed_since(old(opener).record(), final(opener).record()),
                    data_outcome(result),
                )
            },
{
    let ghost start = opener.record();
    let ghost views = device_views(devices@);
    let ghost function = opener.function();
    let selected = select_from(devices, command.selector(), resolved, opener);
    let ghost middle = opener.record();
    let ghost found = accessed_since(start, middle);
    let ghost chosen = selected_outcome(selected);
    assert(is_selection(views, given_selector(*command), *resolved, function, found, chosen));
    match selected {
        Err(error) => {
            assert(is_work(*command, found, chosen, found, Err(error@)));
            Err(error)
        },
        Ok((device, io)) => {
            let ghost left = io.log();
            let ghost view = device@;
            assert(chosen == Ok::<Chosen, ErrorView>(Chosen { device: view, left }));
            let result = match command {
                Command::Change { update, dry_run, .. } => change_and_close(
                    command,
                    update,
                    *dry_run,
                    device,
                    io,
                    opener,
                ),
                _ => read_and_close(command, device, io, opener),
            };
            proof {
                let log = choose|log: Seq<Exchange>| #[trigger]
                    comes_to(*command, view, log, data_outcome(result)) && opener.record()
                        == middle.push(Access::Closed { log: left + log });
                assert(comes_to(*command, view, log, data_outcome(result)));
                assert(accessed_since(start, opener.record()) =~= found.push(
                    Access::Closed { log: left + log },
                ));
                work_is_done(*command, found, view, left, log, data_outcome(result));
            }
            result
        },
    }
}

/// Carries out a command. `listing` is what sysfs lists and, where the command names a node by its
/// path, `resolved` is what resolving that path came to. Nothing is left open.
pub fn execute<T: FeatureIo, F: Fn(&Device) -> Result<Protocol<T>, Error>>(
    command: &Command,
    listing: &Listing,
    resolved: &Option<Result<String, OsError>>,
    opener: &mut Opener<F>,
) -> (result: Result<(Data, Option<Error>), Error>)
    requires
        opens_for(old(opener).function(), *command, *listing, *resolved),
    ensures
        final(opener).function() == old(opener).function(),
        old(opener).record().is_prefix_of(final(opener).record()),
        is_execution(
            *command,
            *listing,
            *resolved,
            old(opener).function(),
            accessed_since(old(opener).record(), final(opener).record()),
            data_outcome(result),
        ),
{
    match command.preflight() {
        Ok(()) => {},
        Err(error) => {
            return Err(error);
        },
    }
    let devices = match discover(listing) {
        Ok(devices) => devices,
        Err(error) => {
            return Err(error);
        },
    };
    match command {
        Command::List => Ok((Data::Devices(devices), None)),
        _ => work(command, devices, resolved, opener),
    }
}

/// What the program prints after a command. A command that came to nothing has a failure and no
/// data; one that failed half-way has both.
pub open spec fn response(
    json_output: bool,
    command: Command,
    result: Result<(DataView, Option<ErrorView>), ErrorView>,
) -> EmissionView {
    match result {
        Ok((data, error)) => emitted(json_output, command_name(command), Some(data), error),
        Err(error) => emitted(json_output, command_name(command), None, Some(error)),
    }
}

/// Decides what the program prints after a command.
pub fn respond(
    json_output: bool,
    command: &Command,
    result: Result<(Data, Option<Error>), Error>,
) -> (emission: Emission)
    ensures
        emission@ == response(json_output, *command, data_outcome(result)),
{
    match result {
        Ok((data, error)) => emit(json_output, command.name(), &Some(data), &error),
        Err(error) => emit(json_output, command.name(), &None, &Some(error)),
    }
}

/// A request that cannot be carried out on any device exits with two.
pub proof fn refused_request_exits_with_two(command: Command, error: ErrorView)
    requires
        preflight_outcome(command) == Err::<(), ErrorView>(error),
    ensures
        error.exit_code == 2,
        error.kind == "invalid_request"@,
{
}

proof fn description_failure_exits_with_one(
    entries: Seq<Result<HidrawEntry, OsError>>,
    error: ErrorView,
)
    requires
        all_described(entries) == Err::<Seq<DeviceView>, ErrorView>(error),
    ensures
        error.exit_code == 1,
    decreases entries.len(),
{
    if entries.len() > 0 && all_described(entries.drop_last()) is Err {
        description_failure_exits_with_one(entries.drop_last(), error);
    }
}

/// A failure to list the devices exits with one.
pub proof fn discovery_failure_exits_with_one(listing: Listing, error: ErrorView)
    requires
        discovered(listing) == Err::<Seq<DeviceView>, ErrorView>(error),
    ensures
        error.exit_code == 1,
{
    if let Ok(entries) = listing {
        description_failure_exits_with_one(entries@, error);
    }
}

/// Where there is no candidate, the exit code says why: two for a selector that makes no sense,
/// three where it leads to no device, five where it names only unsupported ones, and one where its
/// path cannot be resolved for another reason than that it leads nowhere.
pub proof fn missing_candidate_exits(
    devices: Seq<DeviceView>,
    selector: Seq<char>,
    resolved: Option<Result<String, OsError>>,
    error: ErrorView,
)
    requires
        candidates_outcome(devices, Some(selector), resolved) == Err::<
            Seq<DeviceView>,
            ErrorView,
        >(error),
    ensures
        error.exit_code == (match form_of(selector) {
            SelectorForm::Unknown => 2u8,
            SelectorForm::Physical => if devices.filter(
                |device: DeviceView| device.selector == selector,
            ).len() == 0 {
                3u8
            } else {
                5u8
            },
            SelectorForm::Node => match resolved {
                None => 3u8,
                Some(Err(failure)) => if failure.kind is NotFound {
                    3u8
                } else {
                    1u8
                },
                Some(Ok(path)) => if devices.filter(
                    |device: DeviceView| device.path == path@,
                ).len() == 0 {
                    3u8
                } else {
                    5u8
                },
            },
        }),
{
}

/// An update that is refused for what was asked exits with two; one that is refused for the state
/// that the device is in exits with five.
pub proof fn refused_update_exits(update: Update, before: Seq<u16>, error: ErrorView)
    requires
        target_outcome(update, before) == Err::<Seq<u16>, ErrorView>(error),
    ensures
        error.exit_code == (if update_check(update) is Ok && !hysteresis(before) {
            5u8
        } else {
            2u8
        }),
{
}

/// A document says `ok` exactly where it reports no failure, and the program then exits with
/// zero.
pub proof fn document_agrees_with_exit_code(
    command: Command,
    result: Result<(DataView, Option<ErrorView>), ErrorView>,
)
    requires
        result matches Ok((_, Some(error))) ==> error.exit_code != 0,
        result matches Err(error) ==> error.exit_code != 0,
    ensures
        ({
            let emission = response(true, command, result);
            let members = emission.output->Document_0->Object_0;
            let failed = result is Err || result->Ok_0.1 is Some;
            &&& emission.output is Document
            &&& emission.output->Document_0 is Object
            &&& members[2] == ("ok"@, JsonView::Bool(!failed))
            &&& members[3].0 == "data"@
            &&& members[3].1 is Null <==> result is Err
            &&& members[4].0 == "error"@
            &&& members[4].1 is Null <==> !failed
            &&& emission.exit_code == 0 <==> !failed
            &&& emission.diagnostic is None <==> !failed
        }),
{
}

} // verus!
