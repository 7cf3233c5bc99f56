//! What holds of the values that the proofs speak of: they say all that the values of the program
//! hold.
use vstd::prelude::*;

use crate::command::{data_outcome, Emission, Output, OutputView};
use crate::device::{device_outcome, device_views, devices_outcome, text_view, Device};
use crate::document::{data_view, Data, DataView};
use crate::elan::{change_views, state_outcome, Change, State};
use crate::error::{outcome, Error, ErrorView};
use crate::json::{item_views, json_view, member_views, Json, JsonView, Member};
use crate::opening::{action_outcome, Action, ActionView};
use crate::plan::changes_outcome;
use crate::selection::{place_outcome, selector_view, Probe, ProbeView};
use crate::text::views;
use crate::update::{failure_view, report_outcome, Rollback, UpdateReport};

verus! {

/// A failure is seen with its kind, message and exit code, and a result with its value.
pub proof fn failures_are_seen_as_they_are<T>(error: Error, value: T)
    ensures
        error@.kind == error.kind@,
        error@.message == error.message@,
        error@.exit_code == error.exit_code,
        outcome(Ok::<T, Error>(value)) == Ok::<T, ErrorView>(value),
        outcome(Err::<T, Error>(error)) == Err::<T, ErrorView>(error@),
        failure_view(None) == None::<ErrorView>,
        failure_view(Some(error)) == Some(error@),
{
}

/// A state is seen as its four registers.
pub proof fn states_are_seen_as_they_are(state: State, error: Error)
    ensures
        state@ == state.0@,
        state@.len() == 4,
        state_outcome(Ok(state)) == Ok::<Seq<u16>, ErrorView>(state@),
        state_outcome(Err(error)) == Err::<Seq<u16>, ErrorView>(error@),
{
}

/// A device is seen with all that it holds.
pub proof fn devices_are_seen_as_they_are(
    devices: Vec<Device>,
    device: Device,
    error: Error,
    at: int,
)
    ensures
        device@.path == device.path@,
        device@.selector == device.selector@,
        device@.name == device.name@,
        device@.bus == device.bus,
        device@.vendor_id == device.vendor_id@,
        device@.product_id == device.product_id@,
        device@.physical_path == device.physical_path@,
        device@.support == device.support@,
        device@.sys_device == device.sys_device@,
        device@.devnum == device.devnum,
        device_views(devices@).len() == devices@.len(),
        0 <= at < devices@.len() ==> device_views(devices@)[at] == devices@[at]@,
        device_outcome(Ok(device)) matches Ok(seen) && seen == device@,
        device_outcome(Err(error)) matches Err(seen) && seen == error@,
        devices_outcome(Ok(devices)) matches Ok(seen) && seen == device_views(devices@),
        devices_outcome(Err(error)) matches Err(seen) && seen == error@,
{
}

/// A change is seen with its setting, both values and its register, and of changes every one is.
pub proof fn changes_are_seen_as_they_are(
    changes: Vec<Change>,
    change: Change,
    error: Error,
    at: int,
)
    ensures
        change@.setting == change.setting@,
        change@.before_raw == change.before_raw,
        change@.after_raw == change.after_raw,
        change@.index == change.index,
        change_views(changes@).len() == changes@.len(),
        0 <= at < changes@.len() ==> change_views(changes@)[at] == changes@[at]@,
        changes_outcome(Ok(changes)) matches Ok(seen) && seen == change_views(changes@),
        changes_outcome(Err(error)) matches Err(seen) && seen == error@,
{
}

/// A report and a rollback are seen with all that they hold.
pub proof fn reports_are_seen_as_they_are(report: UpdateReport, rollback: Rollback, error: Error)
    ensures
        rollback@.status == rollback.status@,
        rollback@.attempted == change_views(rollback.attempted@),
        rollback@.verified == change_views(rollback.verified@),
        rollback@.error == failure_view(rollback.error),
        report@.status == report.status@,
        report@.before == report.before,
        report@.requested == report.requested,
        report@.observed_after == report.observed_after,
        report@.planned == change_views(report.planned@),
        report@.attempted == change_views(report.attempted@),
        report@.verified == change_views(report.verified@),
        report@.error == failure_view(report.error),
        report.rollback is None ==> report@.rollback is None,
        report.rollback matches Some(held) ==> report@.rollback == Some(held@),
        report_outcome(Ok(report)) matches Ok(seen) && seen == report@,
        report_outcome(Err(error)) matches Err(seen) && seen == error@,
{
}

/// Data are seen with all that they hold.
pub proof fn data_are_seen_as_they_are(data: Data, failure: Option<Error>, error: Error)
    ensures
        data@ == (match data {
            Data::Devices(devices) => DataView::Devices(device_views(devices@)),
            Data::Reading { device, settings } => DataView::Reading { device: device@, settings },
            Data::Updated { device, report } => DataView::Updated {
                device: device@,
                report: report@,
            },
        }),
        data_view(None) == None::<DataView>,
        data_view(Some(data)) == Some(data@),
        data_outcome(Ok((data, failure))) matches Ok((seen, told)) && seen == data@ && told
            == failure_view(failure),
        data_outcome(Err(error)) matches Err(told) && told == error@,
{
}

/// What is printed is seen as it is printed.
pub proof fn output_is_seen_as_it_is(emission: Emission, json: Json, text: String)
    ensures
        Output::Document(json)@ == OutputView::Document(json@),
        Output::Words(text)@ == OutputView::Words(text@),
        Output::Silence@ == OutputView::Silence,
        emission@.exit_code == emission.exit_code,
        emission@.output == emission.output@,
        emission.diagnostic is None ==> emission@.diagnostic is None,
        emission.diagnostic matches Some(line) ==> emission@.diagnostic == Some(line@),
{
}

/// A JSON value is seen as it is: every item of a list and every member of an object, in order,
/// with its name and value.
pub proof fn json_is_seen_as_it_is(
    json: Json,
    items: Vec<Json>,
    members: Vec<Member>,
    n: u64,
    text: String,
    yes: bool,
)
    ensures
        json@ == json_view(json),
        json_view(Json::Null) == JsonView::Null,
        json_view(Json::Bool(yes)) == JsonView::Bool(yes),
        json_view(Json::Number(n)) == JsonView::Number(n as nat),
        json_view(Json::Text(text)) == JsonView::Text(text@),
        json_view(Json::List(items)) matches JsonView::List(seen) && {
            &&& seen.len() == items@.len()
            &&& forall|i: int| 0 <= i < items@.len() ==> #[trigger] seen[i] == json_view(items@[i])
        },
        json_view(Json::Object(members)) matches JsonView::Object(seen) && {
            &&& seen.len() == members@.len()
            &&& forall|i: int|
                0 <= i < members@.len() ==> (#[trigger] seen[i]).0 == members@[i].key@ && seen[i].1
                    == json_view(members@[i].value)
        },
{
    items_are_seen(items@);
    members_are_seen(members@);
}

proof fn items_are_seen(items: Seq<Json>)
    ensures
        item_views(items).len() == items.len(),
        forall|i: int| 0 <= i < items.len() ==> #[trigger] item_views(items)[i] == json_view(items[i]),
    decreases items.len(),
{
    if items.len() > 0 {
        let earlier = items.drop_last();
        items_are_seen(earlier);
        assert forall|i: int| 0 <= i < items.len() implies #[trigger] item_views(items)[i]
            == json_view(items[i]) by {
            if i < earlier.len() {
                assert(earlier[i] == items[i]);
                assert(item_views(items)[i] == item_views(earlier)[i]);
            }
        }
    }
}

proof fn members_are_seen(members: Seq<Member>)
    ensures
        member_views(members).len() == members.len(),
        forall|i: int|
            0 <= i < members.len() ==> (#[trigger] member_views(members)[i]).0 == members[i].key@
                && member_views(members)[i].1 == json_view(members[i].value),
    decreases members.len(),
{
    if members.len() > 0 {
        let earlier = members.drop_last();
        members_are_seen(earlier);
        assert forall|i: int| 0 <= i < members.len() implies (#[trigger] member_views(members)[i]).0
            == members[i].key@ && member_views(members)[i].1 == json_view(members[i].value) by {
            if i < earlier.len() {
                assert(earlier[i] == members[i]);
                assert(member_views(members)[i] == member_views(earlier)[i]);
            }
        }
    }
}

/// An action and a probe are seen with what they hold, and so are results with either, selectors
/// and texts.
pub proof fn steps_are_seen_as_they_are(
    path: String,
    error: Error,
    place: usize,
    selector: &str,
    texts: Vec<String>,
    at: int,
    action: Action,
)
    ensures
        Action::OpenDirectory(path)@ == ActionView::OpenDirectory(path@),
        Action::Lock@ == ActionView::Lock,
        Action::OpenNode(path)@ == ActionView::OpenNode(path@),
        Action::Inspect@ == ActionView::Inspect,
        Action::Resolve(path)@ == ActionView::Resolve(path@),
        Action::Identify@ == ActionView::Identify,
        Action::Use@ == ActionView::Use,
        action_outcome(Ok(action)) matches Ok(seen) && seen == action@,
        action_outcome(Err(error)) matches Err(seen) && seen == error@,
        Probe::Compatible@ == ProbeView::Compatible,
        Probe::Rejected(error)@ == ProbeView::Rejected(error@),
        Probe::Failed(error)@ == ProbeView::Failed(error@),
        place_outcome(Ok(place)) matches Ok(seen) && seen == place,
        place_outcome(Err(error)) matches Err(seen) && seen == error@,
        selector_view(None) == None::<Seq<char>>,
        selector_view(Some(selector)) == Some(selector@),
        text_view(None) == None::<Seq<char>>,
        text_view(Some(path)) == Some(path@),
        views(texts@).len() == texts@.len(),
        0 <= at < texts@.len() ==> views(texts@)[at] == texts@[at]@,
{
}

} // verus!
