//! Opening a device: what is done in which order, and what must hold before it is used.
//!
//! The caller carries out one action after the other and hands back what came of it. The whole
//! physical device is locked before its node is opened, and the node must still be the one that
//! was selected.
use vstd::prelude::*;
use vstd::string::StringExecFns;

use crate::device::{Device, DeviceView, ELAN_VENDOR, HAPTIC_PRODUCT, I2C_BUS};
use crate::devnum::{sysfs_link, sysfs_link_text};
use crate::error::{Error, ErrorView, OsError, OsErrorKind};
use crate::selection::is_supported;
use crate::text::same;

verus! {

/// What a node is.
#[derive(Clone, Copy, Debug, PartialEq, Eq, Structural)]
pub struct NodeInfo {
    pub is_char_device: bool,
    pub rdev: u64,
}

/// What an opened node says of its device, as the system lays it out.
#[derive(Clone, Copy, Debug, PartialEq, Eq, Structural)]
pub struct RawInfo {
    pub bus: u32,
    pub vendor: i16,
    pub product: i16,
}

/// The next thing to do to open a device.
#[derive(Debug)]
pub enum Action {
    /// Open the directory of the physical device.
    OpenDirectory(String),
    /// Lock that directory for this process alone, without waiting.
    Lock,
    /// Open the node for reading and writing, without following links.
    OpenNode(String),
    /// Find out what the opened node is.
    Inspect,
    /// Resolve this link.
    Resolve(String),
    /// Ask the opened node for its bus, vendor and product.
    Identify,
    /// Nothing: the device is ready.
    Use,
}

/// What came of an action.
#[derive(Debug)]
pub enum Event {
    DirectoryOpened(Result<(), OsError>),
    Locked(Result<(), OsError>),
    NodeOpened(Result<(), OsError>),
    Inspected(Result<NodeInfo, OsError>),
    Resolved(Result<String, OsError>),
    Identified(Result<RawInfo, OsError>),
}

/// What an [`Action`] says.
#[verifier::ext_equal]
pub enum ActionView {
    OpenDirectory(Seq<char>),
    Lock,
    OpenNode(Seq<char>),
    Inspect,
    Resolve(Seq<char>),
    Identify,
    Use,
}

impl View for Action {
    type V = ActionView;

    open spec fn view(&self) -> ActionView {
        match *self {
            Action::OpenDirectory(path) => ActionView::OpenDirectory(path@),
            Action::Lock => ActionView::Lock,
            Action::OpenNode(path) => ActionView::OpenNode(path@),
            Action::Inspect => ActionView::Inspect,
            Action::Resolve(path) => ActionView::Resolve(path@),
            Action::Identify => ActionView::Identify,
            Action::Use => ActionView::Use,
        }
    }
}

/// An action to take, or why the device is not to be opened.
pub open spec fn action_outcome(action: Result<Action, Error>) -> Result<ActionView, ErrorView> {
    match action {
        Ok(action) => Ok(action@),
        Err(error) => Err(error@),
    }
}

/// The first action. A device outside the supported profile is not touched.
pub open spec fn first_action(device: DeviceView) -> Result<ActionView, ErrorView> {
    if is_supported(device) {
        Ok(ActionView::OpenDirectory(device.physical_path))
    } else {
        Err(ErrorView::unsupported(device.path + " is outside the ELAN2703 I2C profile"@))
    }
}

/// A lock that another process holds is a failure of its own kind.
pub open spec fn lock_failure(kind: OsErrorKind, detail: Seq<char>) -> ErrorView {
    if kind is WouldBlock {
        ErrorView {
            kind: "busy"@,
            message: "another elan-haptune process holds this device; retry when it exits"@,
            exit_code: 1,
        }
    } else {
        ErrorView::io("lock physical device"@, kind, detail)
    }
}

/// Whether an opened node says that it is of the supported model.
pub open spec fn is_expected(info: RawInfo) -> bool {
    &&& info.bus == I2C_BUS
    &&& info.vendor == ELAN_VENDOR
    &&& info.product == HAPTIC_PRODUCT
}

/// What to do after an event, or why to stop.
pub open spec fn next_action(device: DeviceView, event: Event) -> Result<ActionView, ErrorView> {
    match event {
        Event::DirectoryOpened(Err(error)) => Err(
            ErrorView::io("open physical device for locking"@, error.kind, error.detail@),
        ),
        Event::DirectoryOpened(Ok(())) => Ok(ActionView::Lock),
        Event::Locked(Err(error)) => Err(lock_failure(error.kind, error.detail@)),
        Event::Locked(Ok(())) => Ok(ActionView::OpenNode(device.path)),
        Event::NodeOpened(Err(error)) => Err(
            ErrorView::io(device.path, error.kind, error.detail@),
        ),
        Event::NodeOpened(Ok(())) => Ok(ActionView::Inspect),
        Event::Inspected(Err(error)) => Err(
            ErrorView::io("stat hidraw descriptor"@, error.kind, error.detail@),
        ),
        Event::Inspected(Ok(info)) => if info.is_char_device && info.rdev == device.devnum {
            Ok(ActionView::Resolve(sysfs_link(device.devnum)))
        } else {
            Err(ErrorView::unsupported("device node changed during selection"@))
        },
        Event::Resolved(Err(error)) => Err(
            ErrorView::io("recheck HID sysfs identity"@, error.kind, error.detail@),
        ),
        Event::Resolved(Ok(path)) => if path@ == device.sys_device {
            Ok(ActionView::Identify)
        } else {
            Err(ErrorView::unsupported("HID device changed during selection"@))
        },
        Event::Identified(Err(error)) => Err(
            ErrorView::io("HIDIOCGRAWINFO"@, error.kind, error.detail@),
        ),
        Event::Identified(Ok(info)) => if is_expected(info) {
            Ok(ActionView::Use)
        } else {
            Err(ErrorView::unsupported("opened device has an unexpected bus/VID/PID"@))
        },
    }
}

/// Begins to open a device.
pub fn begin(device: &Device) -> (action: Result<Action, Error>)
    ensures
        action_outcome(action) == first_action(device@),
{
    if same(device.support, "unsupported") {
        let message = String::from_str(device.path.as_str()).concat(
            " is outside the ELAN2703 I2C profile",
        );
        return Err(Error::unsupported(message.as_str()));
    }
    Ok(Action::OpenDirectory(String::from_str(device.physical_path.as_str())))
}

/// Reports that the lock was not obtained.
fn lock_error(error: &OsError) -> (reported: Error)
    ensures
        reported@ == lock_failure(error.kind, error.detail@),
{
    if error.kind == OsErrorKind::WouldBlock {
        return Error::new(
            1,
            "busy",
            "another elan-haptune process holds this device; retry when it exits",
        );
    }
    Error::io("lock physical device", error)
}

/// Decides what to do after an event.
pub fn advance(device: &Device, event: &Event) -> (action: Result<Action, Error>)
    ensures
        action_outcome(action) == next_action(device@, *event),
{
    match event {
        Event::DirectoryOpened(Err(error)) => Err(
            Error::io("open physical device for locking", error),
        ),
        Event::DirectoryOpened(Ok(())) => Ok(Action::Lock),
        Event::Locked(Err(error)) => Err(lock_error(error)),
        Event::Locked(Ok(())) => Ok(Action::OpenNode(String::from_str(device.path.as_str()))),
        Event::NodeOpened(Err(error)) => Err(Error::io(device.path.as_str(), error)),
        Event::NodeOpened(Ok(())) => Ok(Action::Inspect),
        Event::Inspected(Err(error)) => Err(Error::io("stat hidraw descriptor", error)),
        Event::Inspected(Ok(info)) => {
            if !info.is_char_device || info.rdev != device.devnum {
                return Err(Error::unsupported("device node changed during selection"));
            }
            Ok(Action::Resolve(sysfs_link_text(device.devnum)))
        },
        Event::Resolved(Err(error)) => Err(Error::io("recheck HID sysfs identity", error)),
        Event::Resolved(Ok(path)) => {
            if !same(path.as_str(), device.sys_device.as_str()) {
                return Err(Error::unsupported("HID device changed during selection"));
            }
            Ok(Action::Identify)
        },
        Event::Identified(Err(error)) => Err(Error::io("HIDIOCGRAWINFO", error)),
        Event::Identified(Ok(info)) => {
            let vendor = info.vendor;
            let product = info.product;
            assert((vendor as u16 == 0x04f3u16) == (vendor == 0x04f3i16)) by (bit_vector);
            assert((product as u16 == 0x323bu16) == (product == 0x323bi16)) by (bit_vector);
            if info.bus != I2C_BUS || vendor as u16 != ELAN_VENDOR as u16 || product as u16
                != HAPTIC_PRODUCT as u16 {
                return Err(Error::unsupported("opened device has an unexpected bus/VID/PID"));
            }
            Ok(Action::Use)
        },
    }
}

/// Whether an event is what came of an action.
pub open spec fn answers(action: ActionView, event: Event) -> bool {
    match action {
        ActionView::OpenDirectory(_) => event is DirectoryOpened,
        ActionView::Lock => event is Locked,
        ActionView::OpenNode(_) => event is NodeOpened,
        ActionView::Inspect => event is Inspected,
        ActionView::Resolve(_) => event is Resolved,
        ActionView::Identify => event is Identified,
        ActionView::Use => false,
    }
}

/// The outcome of opening a device so far, after the given events.
pub open spec fn opening(device: DeviceView, events: Seq<Event>) -> Result<ActionView, ErrorView>
    decreases events.len(),
{
    if events.len() == 0 {
        first_action(device)
    } else {
        match opening(device, events.drop_last()) {
            Err(error) => Err(error),
            Ok(_) => next_action(device, events.last()),
        }
    }
}

/// Whether events answer the actions that opening a device asks for.
pub open spec fn is_opening(device: DeviceView, events: Seq<Event>) -> bool {
    forall|i: int|
        0 <= i < events.len() ==> (opening(device, #[trigger] events.take(i)) matches Ok(action)
            && answers(action, events[i]))
}

/// A device is used only after it was locked, its node was found to be the character device with
/// the number and the sysfs device that were selected, and the opened node named the expected bus,
/// vendor and product. Nothing of this is ever done to a device outside the supported profile.
pub proof fn use_follows_every_check(device: DeviceView, events: Seq<Event>)
    requires
        is_opening(device, events),
        opening(device, events) == Ok::<ActionView, ErrorView>(ActionView::Use),
    ensures
        is_supported(device),
        events.len() == 6,
        events[0] matches Event::DirectoryOpened(Ok(_)),
        events[1] matches Event::Locked(Ok(_)),
        events[2] matches Event::NodeOpened(Ok(_)),
        events[3] matches Event::Inspected(Ok(info)) && info.is_char_device && info.rdev
            == device.devnum,
        events[4] matches Event::Resolved(Ok(path)) && path@ == device.sys_device,
        events[5] matches Event::Identified(Ok(info)) && is_expected(info),
{
    let count = events.len() as int;
    assert(events.take(count) =~= events);
    opening_unfolds(device, events, count);
}

/// The events of an opening that came to an action are the ones before that action.
proof fn opening_unfolds(device: DeviceView, events: Seq<Event>, count: int)
    requires
        is_opening(device, events),
        0 <= count <= events.len(),
        opening(device, events.take(count)) is Ok,
    ensures
        is_supported(device),
        count <= 6,
        opening(device, events.take(count))->Ok_0 == (if count == 0 {
            ActionView::OpenDirectory(device.physical_path)
        } else if count == 1 {
            ActionView::Lock
        } else if count == 2 {
            ActionView::OpenNode(device.path)
        } else if count == 3 {
            ActionView::Inspect
        } else if count == 4 {
            ActionView::Resolve(sysfs_link(device.devnum))
        } else if count == 5 {
            ActionView::Identify
        } else {
            ActionView::Use
        }),
        count > 0 ==> events[0] matches Event::DirectoryOpened(Ok(_)),
        count > 1 ==> events[1] matches Event::Locked(Ok(_)),
        count > 2 ==> events[2] matches Event::NodeOpened(Ok(_)),
        count > 3 ==> (events[3] matches Event::Inspected(Ok(info)) && info.is_char_device
            && info.rdev == device.devnum),
        count > 4 ==> (events[4] matches Event::Resolved(Ok(path)) && path@ == device.sys_device),
        count > 5 ==> (events[5] matches Event::Identified(Ok(info)) && is_expected(info)),
    decreases count,
{
    let now = events.take(count);
    if count > 0 {
        let earlier = events.take(count - 1);
        assert(now.drop_last() =~= earlier);
        assert(now.last() == events[count - 1]);
        opening_unfolds(device, events, count - 1);
        assert(opening(device, earlier) matches Ok(action) && answers(action, events[count - 1]));
    }
}

/// A device outside the supported profile is refused before anything is done to it.
pub proof fn unsupported_device_is_not_touched(device: DeviceView, events: Seq<Event>)
    requires
        !is_supported(device),
        is_opening(device, events),
    ensures
        events.len() == 0,
        opening(device, events) is Err,
{
    if events.len() > 0 {
        let none = events.take(0);
        assert(none =~= seq![]);
        assert(opening(device, none) is Err);
    }
}

} // verus!
