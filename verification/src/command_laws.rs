//! What holds of every command.
use vstd::prelude::*;

use crate::command::{
    change_outcome, comes_to, command_name, given_selector, is_execution, is_work,
    preflight_outcome, reading, response, update_failure, Command,
};
use crate::device::{discovered, Device, DeviceView, Listing};
use crate::document::DataView;
use crate::elan::{is_snapshot, snapshot_outcome};
use crate::error::{Error, ErrorView, OsError};
use crate::opener::Access;
use crate::protocol::{joined, Exchange, FeatureIo, Protocol};
use crate::selection::{is_selection, Chosen};
use crate::settings_laws::{
    a_state_is_what_was_read, bit_8, may_be_asked, only_updates_in_bounds_are_accepted,
    settings_are_what_registers_hold,
};
use crate::update::{applied, ReportView, Run};

verus! {

/// Commands go by the names `list`, `get` and `set`, and work with the device that they were given.
pub proof fn commands_go_by_their_names(command: Command)
    ensures
        command_name(command) == (match command {
            Command::List => "list"@,
            Command::Get { .. } => "get"@,
            Command::Change { .. } => "set"@,
        }),
        given_selector(command) == (match command {
            Command::List => None::<Seq<char>>,
            Command::Get { device } => match device {
                Some(device) => Some(device@),
                None => None,
            },
            Command::Change { device, .. } => match device {
                Some(device) => Some(device@),
                None => None,
            },
        }),
{
}

/// The only requests that are refused before any device is looked at are updates that may not be
/// asked for.
pub proof fn only_updates_out_of_bounds_are_refused_at_once(command: Command)
    ensures
        preflight_outcome(command) is Err <==> (command matches Command::Change { update, .. }
            && !may_be_asked(update)),
        preflight_outcome(command) matches Err(error) ==> error.kind == "invalid_request"@
            && error.exit_code == 2,
{
    if let Command::Change { update, .. } = command {
        only_updates_in_bounds_are_accepted(update);
    }
}

/// A device as it is told after its identity was checked: all as it was found, but for its support.
pub open spec fn is_same_but_checked(told: DeviceView, device: DeviceView) -> bool {
    &&& told.support == "compatible"@
    &&& told.path == device.path
    &&& told.selector == device.selector
    &&& told.name == device.name
    &&& told.bus == device.bus
    &&& told.vendor_id == device.vendor_id
    &&& told.product_id == device.product_id
    &&& told.physical_path == device.physical_path
    &&& told.sys_device == device.sys_device
    &&& told.devnum == device.devnum
}

/// A reading tells the settings as they were read, or fails as the reading did.
pub proof fn a_reading_tells_what_was_read(
    device: DeviceView,
    state: Seq<u16>,
    error: ErrorView,
)
    requires
        state.len() == 4,
    ensures
        reading(device, Err(error)) == Err::<(DataView, Option<ErrorView>), ErrorView>(error),
        reading(device, Ok(state)) matches Ok((data, failure)) && failure is None
            && (data matches DataView::Reading { device: told, settings } && {
            &&& is_same_but_checked(told, device)
            &&& settings.press_threshold == state[0]
            &&& settings.release_threshold == state[1]
            &&& settings.drag_release_threshold == state[2]
            &&& settings.haptics == bit_8(state[3])
        }),
{
    settings_are_what_registers_hold(state, 0);
}

/// A failed update is told as a failure with exit code one: why it failed, and how its rollback
/// went, or that none was attempted. Any other update is told without a failure.
pub proof fn a_failed_update_is_told(report: ReportView)
    ensures
        update_failure(report) is Some <==> report.status == "failed"@,
        update_failure(report) matches Some(failure) ==> {
            &&& failure.kind == "update_failed"@
            &&& failure.exit_code == 1
            &&& failure.message == (match report.error {
                Some(error) => error.message,
                None => Seq::<char>::empty(),
            }) + "; rollback: "@ + (match report.rollback {
                Some(rollback) => rollback.status,
                None => "not_attempted"@,
            })
        },
{
}

/// An update tells its device and its report as it stands, and fails as the update was refused.
pub proof fn an_update_tells_its_report(
    device: DeviceView,
    report: ReportView,
    error: ErrorView,
)
    ensures
        change_outcome(device, Err(error)) == Err::<(DataView, Option<ErrorView>), ErrorView>(error),
        change_outcome(device, Ok(report)) matches Ok((data, failure)) && failure == update_failure(
            report,
        ) && (data matches DataView::Updated { device: told, report: same } && same == report
            && is_same_but_checked(told, device)),
{
}

/// A listing tells every device that was found, and opens none. A failure to find them is what any
/// command comes to that was not refused before.
pub proof fn a_listing_tells_all_that_was_found<
    T: FeatureIo,
    F: Fn(&Device) -> Result<Protocol<T>, Error>,
>(
    command: Command,
    listing: Listing,
    resolved: Option<Result<String, OsError>>,
    function: F,
    accessed: Seq<Access>,
    result: Result<(DataView, Option<ErrorView>), ErrorView>,
)
    requires
        is_execution(command, listing, resolved, function, accessed, result),
    ensures
        preflight_outcome(command) matches Err(error) ==> result == Err::<
            (DataView, Option<ErrorView>),
            ErrorView,
        >(error) && accessed.len() == 0,
        preflight_outcome(command) is Ok ==> (discovered(listing) matches Err(error) ==> result
            == Err::<(DataView, Option<ErrorView>), ErrorView>(error) && accessed.len() == 0),
        command is List ==> (discovered(listing) matches Ok(devices) ==> (result matches Ok(
            (data, failure),
        ) && data == DataView::Devices(devices) && failure is None && accessed.len() == 0)),
{
}

/// Reading gives the settings that the chosen device gave when it was asked for all four registers,
/// after its identity and as the last thing before it was closed. It fails where no device is
/// chosen, or as the reading did.
pub proof fn get_reads_the_chosen_device<
    T: FeatureIo,
    F: Fn(&Device) -> Result<Protocol<T>, Error>,
>(
    command: Command,
    listing: Listing,
    resolved: Option<Result<String, OsError>>,
    function: F,
    accessed: Seq<Access>,
    result: Result<(DataView, Option<ErrorView>), ErrorView>,
)
    requires
        command is Get,
        is_execution(command, listing, resolved, function, accessed, result),
        discovered(listing) is Ok,
    ensures
        exists|found: Seq<Access>, selected: Result<Chosen, ErrorView>|
            {
                &&& #[trigger] is_selection(
                    discovered(listing)->Ok_0,
                    given_selector(command),
                    resolved,
                    function,
                    found,
                    selected,
                )
                &&& selected matches Err(error) ==> result == Err::<
                    (DataView, Option<ErrorView>),
                    ErrorView,
                >(error) && accessed == found
                &&& selected matches Ok(chosen) ==> exists|reads: Seq<Seq<Exchange>>|
                    {
                        &&& is_snapshot(reads)
                        &&& accessed == found.push(
                            Access::Closed { log: chosen.left + #[trigger] joined(reads) },
                        )
                        &&& match snapshot_outcome(reads) {
                            Err(error) => result == Err::<
                                (DataView, Option<ErrorView>),
                                ErrorView,
                            >(error),
                            Ok(state) => state.len() == 4 && (result matches Ok((data, failure))
                                && failure is None && (data matches DataView::Reading {
                                device,
                                settings,
                            } && {
                                &&& is_same_but_checked(device, chosen.device)
                                &&& settings.press_threshold == state[0]
                                &&& settings.release_threshold == state[1]
                                &&& settings.drag_release_threshold == state[2]
                                &&& settings.haptics == bit_8(state[3])
                            })),
                        }
                    }
            },
{
    let devices = discovered(listing)->Ok_0;
    let (found, selected) = choose|found: Seq<Access>, selected: Result<Chosen, ErrorView>|
        {
            &&& #[trigger] is_selection(
                devices,
                given_selector(command),
                resolved,
                function,
                found,
                selected,
            )
            &&& is_work(command, found, selected, accessed, result)
        };
    if let Ok(chosen) = selected {
        let log = choose|log: Seq<Exchange>| #[trigger]
            comes_to(command, chosen.device, log, result) && accessed == found.push(
                Access::Closed { log: chosen.left + log },
            );
        let reads = choose|reads: Seq<Seq<Exchange>>|
            {
                &&& log == #[trigger] joined(reads)
                &&& is_snapshot(reads)
                &&& result == reading(chosen.device, snapshot_outcome(reads))
            };
        a_state_is_what_was_read(reads);
        if let Ok(state) = snapshot_outcome(reads) {
            a_reading_tells_what_was_read(
                chosen.device,
                state,
                ErrorView::invalid(Seq::<char>::empty()),
            );
        }
        assert(joined(reads) == log);
    }
    assert(is_selection(devices, given_selector(command), resolved, function, found, selected));
}

/// Changing settings carries the update out on the chosen device, after its identity was checked
/// and as the last thing before it is closed, and tells the report of it. It fails where no device
/// is chosen, or as the update was refused.
pub proof fn set_updates_the_chosen_device<
    T: FeatureIo,
    F: Fn(&Device) -> Result<Protocol<T>, Error>,
>(
    command: Command,
    listing: Listing,
    resolved: Option<Result<String, OsError>>,
    function: F,
    accessed: Seq<Access>,
    result: Result<(DataView, Option<ErrorView>), ErrorView>,
)
    requires
        command is Change,
        may_be_asked(command->update),
        is_execution(command, listing, resolved, function, accessed, result),
        discovered(listing) is Ok,
    ensures
        exists|found: Seq<Access>, selected: Result<Chosen, ErrorView>|
            {
                &&& #[trigger] is_selection(
                    discovered(listing)->Ok_0,
                    given_selector(command),
                    resolved,
                    function,
                    found,
                    selected,
                )
                &&& selected matches Err(error) ==> result == Err::<
                    (DataView, Option<ErrorView>),
                    ErrorView,
                >(error) && accessed == found
                &&& selected matches Ok(chosen) ==> exists|
                    run: Run,
                    report: Result<ReportView, ErrorView>,
                |
                    {
                        &&& #[trigger] applied(command->update, command->dry_run, run, report)
                        &&& accessed == found.push(Access::Closed { log: chosen.left + run.log() })
                        &&& match report {
                            Err(error) => result == Err::<
                                (DataView, Option<ErrorView>),
                                ErrorView,
                            >(error),
                            Ok(report) => result matches Ok((data, failure)) && (failure is Some
                                <==> report.status == "failed"@) && (
                            data matches DataView::Updated { device, report: told } && told == report
                                && is_same_but_checked(device, chosen.device)),
                        }
                    }
            },
{
    only_updates_in_bounds_are_accepted(command->update);
    let devices = discovered(listing)->Ok_0;
    let (found, selected) = choose|found: Seq<Access>, selected: Result<Chosen, ErrorView>|
        {
            &&& #[trigger] is_selection(
                devices,
                given_selector(command),
                resolved,
                function,
                found,
                selected,
            )
            &&& is_work(command, found, selected, accessed, result)
        };
    if let Ok(chosen) = selected {
        let log = choose|log: Seq<Exchange>| #[trigger]
            comes_to(command, chosen.device, log, result) && accessed == found.push(
                Access::Closed { log: chosen.left + log },
            );
        let (run, report) = choose|run: Run, report: Result<ReportView, ErrorView>|
            {
                &&& log == #[trigger] run.log()
                &&& #[trigger] applied(command->update, command->dry_run, run, report)
                &&& result == change_outcome(chosen.device, report)
            };
        assert(applied(command->update, command->dry_run, run, report));
        if let Ok(report) = report {
            an_update_tells_its_report(
                chosen.device,
                report,
                ErrorView::invalid(Seq::<char>::empty()),
            );
            a_failed_update_is_told(report);
        }
    }
    assert(is_selection(devices, given_selector(command), resolved, function, found, selected));
}

/// After a command the program prints what it came to under its own name: with the data where it
/// came to any, and with the failure where there is one.
pub proof fn the_response_is_that_of_the_command(
    json_output: bool,
    command: Command,
    data: DataView,
    failure: Option<ErrorView>,
    error: ErrorView,
)
    ensures
        response(json_output, command, Ok((data, failure))) == crate::command::emitted(
            json_output,
            command_name(command),
            Some(data),
            failure,
        ),
        response(json_output, command, Err(error)) == crate::command::emitted(
            json_output,
            command_name(command),
            None,
            Some(error),
        ),
{
}

} // verus!
