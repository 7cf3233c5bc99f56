//! Choosing the one device to work with.
use vstd::prelude::*;
use vstd::string::StringExecFns;

use crate::device::{
    described, device_views, devices_outcome, Device, DeviceView, HidrawEntry,
};
use crate::error::{outcome, Error, ErrorView, OsError, OsErrorKind};
use crate::opener::{opened_outcome, Access, Opener};
use crate::protocol::{
    added, exchanged, identity_outcome, is_identity_check, joined, Exchange, FeatureIo, Protocol,
    Record,
};
use crate::text::{begins, same, starts_with};

verus! {

/// How a selector names a device.
#[derive(Clone, Copy, Debug, PartialEq, Eq, Structural)]
pub enum SelectorForm {
    /// By the physical device, as a listing shows it.
    Physical,
    /// By the path of a node, or of a link to one.
    Node,
    /// In no known way.
    Unknown,
}

pub open spec fn form_of(selector: Seq<char>) -> SelectorForm {
    if begins(selector, "sysfs:"@) {
        SelectorForm::Physical
    } else if begins(selector, "/"@) {
        SelectorForm::Node
    } else {
        SelectorForm::Unknown
    }
}

/// Tells how a selector names a device. The path of a node has to be resolved before the device
/// can be looked up.
pub fn selector_form(selector: &str) -> (form: SelectorForm)
    ensures
        form == form_of(selector@),
{
    if starts_with(selector, "sysfs:") {
        SelectorForm::Physical
    } else if starts_with(selector, "/") {
        SelectorForm::Node
    } else {
        SelectorForm::Unknown
    }
}

/// Whether a device may be opened at all.
pub open spec fn is_supported(device: DeviceView) -> bool {
    device.support != "unsupported"@
}

/// No device was found.
pub open spec fn no_device(message: Seq<char>) -> ErrorView {
    ErrorView { kind: "no_device"@, message, exit_code: 3 }
}

/// More than one device was found.
pub open spec fn ambiguous(message: Seq<char>) -> ErrorView {
    ErrorView { kind: "ambiguous"@, message, exit_code: 4 }
}

/// The supported ones of the devices that a selector names.
pub open spec fn supported_of(matching: Seq<DeviceView>) -> Result<Seq<DeviceView>, ErrorView> {
    let kept = matching.filter(|device: DeviceView| is_supported(device));
    if matching.len() == 0 {
        Err(no_device("no hidraw device matches the selector"@))
    } else if kept.len() == 0 {
        Err(ErrorView::unsupported("selected device has no supported profile"@))
    } else {
        Ok(kept)
    }
}

/// The path to which that of a node was resolved, or why it was not. A path that nobody resolved
/// leads to no device.
pub open spec fn resolved_outcome(
    selector: Seq<char>,
    resolved: Option<Result<String, OsError>>,
) -> Result<Seq<char>, ErrorView> {
    match resolved {
        Some(Ok(path)) => Ok(path@),
        Some(Err(error)) => if error.kind is NotFound {
            Err(no_device("device path not found: "@ + selector))
        } else {
            Err(ErrorView::io(selector, error.kind, error.detail@))
        },
        None => Err(no_device("no hidraw device matches the selector"@)),
    }
}

/// The devices that may be the one to work with: all supported ones, or those of them that the
/// selector names.
pub open spec fn candidates_outcome(
    devices: Seq<DeviceView>,
    selector: Option<Seq<char>>,
    resolved: Option<Result<String, OsError>>,
) -> Result<Seq<DeviceView>, ErrorView> {
    match selector {
        None => Ok(devices.filter(|device: DeviceView| is_supported(device))),
        Some(selector) => match form_of(selector) {
            SelectorForm::Physical => supported_of(
                devices.filter(|device: DeviceView| device.selector == selector),
            ),
            SelectorForm::Node => match resolved_outcome(selector, resolved) {
                Err(error) => Err(error),
                Ok(path) => supported_of(
                    devices.filter(|device: DeviceView| device.path == path),
                ),
            },
            SelectorForm::Unknown => Err(
                ErrorView::invalid(
                    "--device must be an absolute hidraw path or a sysfs: selector from list"@,
                ),
            ),
        },
    }
}

pub open spec fn selector_view(selector: Option<&str>) -> Option<Seq<char>> {
    match selector {
        Some(selector) => Some(selector@),
        None => None,
    }
}

/// What is kept of devices.
enum Filter<'a> {
    Supported,
    Selector(&'a str),
    Path(&'a str),
}

spec fn passes(filter: Filter<'_>, device: DeviceView) -> bool {
    match filter {
        Filter::Supported => is_supported(device),
        Filter::Selector(selector) => device.selector == selector@,
        Filter::Path(path) => device.path == path@,
    }
}

fn device_passes(filter: &Filter<'_>, device: &Device) -> (yes: bool)
    ensures
        yes == passes(*filter, device@),
{
    match filter {
        Filter::Supported => !same(device.support, "unsupported"),
        Filter::Selector(selector) => same(device.selector.as_str(), selector),
        Filter::Path(path) => same(device.path.as_str(), path),
    }
}

/// Keeps the devices that pass a filter, in order.
fn keep(devices: Vec<Device>, filter: Filter<'_>) -> (kept: Vec<Device>)
    ensures
        device_views(kept@) == device_views(devices@).filter(
            |device: DeviceView| passes(filter, device),
        ),
{
    let ghost given = device_views(devices@);
    let ghost pred = |device: DeviceView| passes(filter, device);
    let mut kept: Vec<Device> = Vec::new();
    assert(device_views(kept@) =~= given.take(0).filter(pred)) by {
        assert(given.take(0) =~= seq![]);
    }
    for device in it: devices
        invariant
            it.seq().len() == given.len(),
            forall|k: int| 0 <= k < given.len() ==> (#[trigger] it.seq()[k])@ == given[k],
            pred == (|device: DeviceView| passes(filter, device)),
            device_views(kept@) == given.take(it.index() as int).filter(pred),
    {
        let ghost i = it.index() as int;
        let ghost earlier = kept@;
        let ghost view = device@;
        assert(view == given[i]);
        assert(given.take(i + 1).drop_last() =~= given.take(i));
        proof {
            reveal(Seq::filter);
        }
        if device_passes(&filter, &device) {
            kept.push(device);
            assert(device_views(kept@) =~= device_views(earlier).push(view));
        }
    }
    assert(given.take(given.len() as int) =~= given);
    kept
}

/// Keeps the supported ones of the devices that a selector names.
fn keep_supported(matching: Vec<Device>) -> (kept: Result<Vec<Device>, Error>)
    ensures
        devices_outcome(kept) == supported_of(device_views(matching@)),
{
    if matching.len() == 0 {
        return Err(Error::new(3, "no_device", "no hidraw device matches the selector"));
    }
    let filter = Filter::Supported;
    assert((|device: DeviceView| passes(filter, device)) =~= (|device: DeviceView|
        is_supported(device)));
    let kept = keep(matching, filter);
    if kept.len() == 0 {
        assert(device_views(kept@) =~= seq![]);
        return Err(Error::unsupported("selected device has no supported profile"));
    }
    Ok(kept)
}

/// Finds the devices that may be the one to work with. Where the selector is the path of a node,
/// `resolved` is what resolving that path came to.
pub fn candidates(
    devices: Vec<Device>,
    selector: Option<&str>,
    resolved: &Option<Result<String, OsError>>,
) -> (kept: Result<Vec<Device>, Error>)
    ensures
        devices_outcome(kept) == candidates_outcome(
            device_views(devices@),
            selector_view(selector),
            *resolved,
        ),
{
    let selector = match selector {
        Some(selector) => selector,
        None => {
            let filter = Filter::Supported;
            assert((|device: DeviceView| passes(filter, device)) =~= (|device: DeviceView|
                is_supported(device)));
            return Ok(keep(devices, filter));
        },
    };
    match selector_form(selector) {
        SelectorForm::Physical => {
            let filter = Filter::Selector(selector);
            assert((|device: DeviceView| passes(filter, device)) =~= (|device: DeviceView|
                device.selector == selector@));
            keep_supported(keep(devices, filter))
        },
        SelectorForm::Node => {
            match resolved {
                Some(Ok(path)) => {
                    let filter = Filter::Path(path.as_str());
                    assert((|device: DeviceView| passes(filter, device)) =~= (|device: DeviceView|
                        device.path == path@));
                    keep_supported(keep(devices, filter))
                },
                Some(Err(error)) => {
                    if error.kind == OsErrorKind::NotFound {
                        let message = String::from_str("device path not found: ").concat(selector);
                        Err(Error::new(3, "no_device", message.as_str()))
                    } else {
                        Err(Error::io(selector, error))
                    }
                },
                None => Err(Error::new(3, "no_device", "no hidraw device matches the selector")),
            }
        },
        SelectorForm::Unknown => Err(
            Error::invalid(
                "--device must be an absolute hidraw path or a sysfs: selector from list",
            ),
        ),
    }
}

/// What became of a candidate.
#[derive(Debug)]
pub enum Probe {
    /// It was opened, and its protocol identity is the expected one.
    Compatible,
    /// Its identity is another one.
    Rejected(Error),
    /// It could not be opened or asked.
    Failed(Error),
}

/// What a [`Probe`] says.
#[verifier::ext_equal]
pub enum ProbeView {
    Compatible,
    Rejected(ErrorView),
    Failed(ErrorView),
}

impl View for Probe {
    type V = ProbeView;

    open spec fn view(&self) -> ProbeView {
        match *self {
            Probe::Compatible => ProbeView::Compatible,
            Probe::Rejected(error) => ProbeView::Rejected(error@),
            Probe::Failed(error) => ProbeView::Failed(error@),
        }
    }
}

pub open spec fn probe_views(probes: Seq<Probe>) -> Seq<ProbeView> {
    probes.map_values(|probe: Probe| probe@)
}

/// What an identity check says of a candidate. Only an unsupported identity rejects it; anything
/// else that goes wrong is a failure that must not be passed over.
pub open spec fn judged(checked: Result<(), ErrorView>) -> ProbeView {
    match checked {
        Ok(()) => ProbeView::Compatible,
        Err(error) => if error.exit_code == 5 {
            ProbeView::Rejected(error)
        } else {
            ProbeView::Failed(error)
        },
    }
}

/// Judges a candidate by its identity check.
pub fn judge(checked: Result<(), Error>) -> (probe: Probe)
    ensures
        probe@ == judged(outcome(checked)),
{
    match checked {
        Ok(()) => Probe::Compatible,
        Err(error) => {
            if error.exit_code == 5 {
                Probe::Rejected(error)
            } else {
                Probe::Failed(error)
            }
        },
    }
}

/// Whether the next candidate is another interface of a physical device that was found compatible
/// already.
pub open spec fn repeats(candidates: Seq<DeviceView>, probes: Seq<ProbeView>, next: int) -> bool {
    exists|k: int|
        0 <= k < next && (#[trigger] probes[k]) is Compatible && candidates[k].selector
            == candidates[next].selector
}

/// Whether there is nothing more to probe: no candidate is left, the last one failed, or the next
/// one is an interface of a device that was found already.
pub open spec fn is_over(candidates: Seq<DeviceView>, probes: Seq<ProbeView>) -> bool {
    ||| probes.len() >= candidates.len()
    ||| probes.len() > 0 && probes.last() is Failed
    ||| repeats(candidates, probes, probes.len() as int)
}

/// Whether these are the probes of a selection: one candidate after the other, until it is over.
pub open spec fn is_survey(candidates: Seq<DeviceView>, probes: Seq<ProbeView>) -> bool {
    &&& probes.len() <= candidates.len()
    &&& is_over(candidates, probes)
    &&& forall|count: int|
        0 <= count < probes.len() ==> !is_over(candidates, #[trigger] probes.take(count))
}

/// How many candidates were found compatible.
pub open spec fn compatible_count(probes: Seq<ProbeView>) -> nat
    decreases probes.len(),
{
    if probes.len() == 0 {
        0
    } else {
        compatible_count(probes.drop_last()) + if probes.last() is Compatible {
            1nat
        } else {
            0nat
        }
    }
}

/// The last candidate that was found compatible, or -1.
pub open spec fn last_compatible(probes: Seq<ProbeView>) -> int
    decreases probes.len(),
{
    if probes.len() == 0 {
        -1
    } else if probes.last() is Compatible {
        probes.len() - 1
    } else {
        last_compatible(probes.drop_last())
    }
}

/// Why the last rejected candidate was rejected.
pub open spec fn last_rejection(probes: Seq<ProbeView>) -> Option<ErrorView>
    decreases probes.len(),
{
    if probes.len() == 0 {
        None
    } else {
        match probes.last() {
            ProbeView::Rejected(error) => Some(error),
            _ => last_rejection(probes.drop_last()),
        }
    }
}

/// The place of the device to work with, or why there is none. It must be the only compatible
/// one. A failed probe is reported as it is. Where none is compatible and a selector was given,
/// the reason for rejecting it is reported.
pub open spec fn conclusion(
    candidates: Seq<DeviceView>,
    explicit: bool,
    probes: Seq<ProbeView>,
) -> Result<int, ErrorView> {
    let none = no_device("no known-compatible device found"@);
    if probes.len() > 0 && probes.last() is Failed {
        Err(probes.last()->Failed_0)
    } else if probes.len() < candidates.len() {
        Err(
            ambiguous(
                "multiple candidate interfaces on one physical device; select an explicit hidraw path"@,
            ),
        )
    } else if compatible_count(probes) == 0 {
        match last_rejection(probes) {
            Some(error) if explicit => Err(error),
            _ => Err(none),
        }
    } else if compatible_count(probes) == 1 {
        Ok(last_compatible(probes))
    } else {
        Err(ambiguous("multiple known-compatible physical devices; use --device"@))
    }
}

/// A place that was found, or the failure to find it.
pub open spec fn place_outcome(place: Result<usize, Error>) -> Result<int, ErrorView> {
    match place {
        Ok(place) => Ok(place as int),
        Err(error) => Err(error@),
    }
}

proof fn compatible_is_there(probes: Seq<ProbeView>)
    ensures
        -1 <= last_compatible(probes) < probes.len(),
        last_compatible(probes) >= 0 <==> compatible_count(probes) > 0,
        last_compatible(probes) >= 0 ==> probes[last_compatible(probes)] is Compatible,
        compatible_count(probes) <= probes.len(),
    decreases probes.len(),
{
    if probes.len() > 0 {
        compatible_is_there(probes.drop_last());
    }
}

/// Decides which device to work with, going by the probes of all candidates.
pub fn conclude(candidates: &Vec<Device>, explicit: bool, probes: Vec<Probe>) -> (place: Result<
    usize,
    Error,
>)
    ensures
        place_outcome(place) == conclusion(
            device_views(candidates@),
            explicit,
            probe_views(probes@),
        ),
{
    let ghost views = probe_views(probes@);
    let count = probes.len();
    let mut found: usize = 0;
    let mut last: usize = 0;
    let mut rejection: Option<Error> = None;
    let mut failure: Option<Error> = None;
    let mut i: usize = 0;
    assert(views.take(0) =~= seq![]);
    for probe in it: probes
        invariant
            it.seq().len() == views.len(),
            views.len() == count,
            i == it.index(),
            forall|k: int| 0 <= k < views.len() ==> (#[trigger] it.seq()[k])@ == views[k],
            found == compatible_count(views.take(i as int)),
            found <= i,
            found > 0 ==> last == last_compatible(views.take(i as int)),
            rejection is None <==> last_rejection(views.take(i as int)) is None,
            rejection matches Some(error) ==> last_rejection(views.take(i as int)) == Some(error@),
            i > 0 && views[i - 1] is Failed ==> (failure matches Some(error) && views[i - 1]
                == ProbeView::Failed(error@)),
            i == 0 || !(views[i - 1] is Failed) ==> failure is None,
    {
        assert(views.take(i + 1).drop_last() =~= views.take(i as int));
        assert(probe@ == views[i as int]);
        failure = None;
        match probe {
            Probe::Compatible => {
                found = found + 1;
                last = i;
            },
            Probe::Rejected(error) => {
                rejection = Some(error);
            },
            Probe::Failed(error) => {
                failure = Some(error);
            },
        }
        i = i + 1;
    }
    assert(views.take(views.len() as int) =~= views);
    proof {
        compatible_is_there(views);
    }
    if let Some(error) = failure {
        return Err(error);
    }
    if count < candidates.len() {
        return Err(
            Error::new(
                4,
                "ambiguous",
                "multiple candidate interfaces on one physical device; select an explicit hidraw path",
            ),
        );
    }
    if found == 0 {
        if explicit {
            if let Some(error) = rejection {
                return Err(error);
            }
        }
        return Err(Error::new(3, "no_device", "no known-compatible device found"));
    }
    if found == 1 {
        return Ok(last);
    }
    Err(
        Error::new(
            4,
            "ambiguous",
            "multiple known-compatible physical devices; use --device",
        ),
    )
}

/// What was done with a candidate: it was opened and, where that succeeded, asked for its
/// identity.
pub struct Visit {
    pub device: DeviceView,
    /// The record of the transport as it was opened.
    pub opened: Result<Record, ErrorView>,
    /// The reads of the identity check.
    pub reads: Seq<Seq<Exchange>>,
}

impl Visit {
    /// What became of the candidate.
    pub open spec fn probe(self) -> ProbeView {
        match self.opened {
            Err(error) => ProbeView::Failed(error),
            Ok(_) => judged(identity_outcome(self.reads)),
        }
    }

    /// All that went through the transport by the end of the identity check, which adds its reads
    /// and nothing else.
    pub open spec fn left(self) -> Record {
        self.opened->Ok_0 + joined(self.reads)
    }

    /// The use of the opener: the candidate is opened, and closed at once unless it is compatible.
    pub open spec fn accesses(self) -> Seq<Access> {
        let opened = seq![Access::Opened { device: self.device, result: self.opened }];
        if self.opened is Ok && !(self.probe() is Compatible) {
            opened.push(Access::Closed { log: self.left() })
        } else {
            opened
        }
    }
}

pub open spec fn visit_probes(visits: Seq<Visit>) -> Seq<ProbeView> {
    visits.map_values(|visit: Visit| visit.probe())
}

/// The use of the opener in all visits, one after the other.
pub open spec fn visit_accesses(visits: Seq<Visit>) -> Seq<Access>
    decreases visits.len(),
{
    if visits.len() == 0 {
        seq![]
    } else {
        visit_accesses(visits.drop_last()) + visits.last().accesses()
    }
}

/// The use of the opener where the choice cannot be made: every compatible candidate is closed
/// again.
pub open spec fn closings(visits: Seq<Visit>) -> Seq<Access>
    decreases visits.len(),
{
    if visits.len() == 0 {
        seq![]
    } else if visits.last().probe() is Compatible {
        closings(visits.drop_last()).push(Access::Closed { log: visits.last().left() })
    } else {
        closings(visits.drop_last())
    }
}

/// Whether the function that opens devices can have given this for a device.
pub open spec fn gives<T: FeatureIo, F: Fn(&Device) -> Result<Protocol<T>, Error>>(
    function: F,
    device: DeviceView,
    result: Result<Record, ErrorView>,
) -> bool {
    exists|given: Device, opened: Result<Protocol<T>, Error>| #[trigger]
        call_ensures(function, (&given,), opened) && given@ == device && opened_outcome(opened)
            == result
}

/// Whether a visit is one of this candidate.
pub open spec fn is_visit_of<T: FeatureIo, F: Fn(&Device) -> Result<Protocol<T>, Error>>(
    function: F,
    candidate: DeviceView,
    visit: Visit,
) -> bool {
    &&& visit.device == candidate
    &&& gives(function, candidate, visit.opened)
    &&& visit.opened is Ok ==> is_identity_check(visit.reads)
}

/// Whether these are the visits of a selection: one candidate after the other, each once, until
/// nothing more is to be probed.
pub open spec fn is_tour<T: FeatureIo, F: Fn(&Device) -> Result<Protocol<T>, Error>>(
    function: F,
    candidates: Seq<DeviceView>,
    visits: Seq<Visit>,
) -> bool {
    &&& is_survey(candidates, visit_probes(visits))
    &&& forall|i: int|
        0 <= i < visits.len() ==> is_visit_of(function, candidates[i], #[trigger] visits[i])
}

/// Whether a device was opened and then found to have the expected identity.
pub open spec fn is_checked<T: FeatureIo, F: Fn(&Device) -> Result<Protocol<T>, Error>>(
    function: F,
    device: DeviceView,
    io: Protocol<T>,
) -> bool {
    exists|given: Device, opened: Protocol<T>, reads: Seq<Seq<Exchange>>|
        {
            &&& #[trigger] call_ensures(function, (&given,), Ok(opened))
            &&& given@ == device
            &&& #[trigger] exchanged(opened, io, joined(reads))
            &&& is_identity_check(reads)
            &&& identity_outcome(reads) is Ok
        }
}

/// The device that was chosen.
#[verifier::ext_equal]
pub struct Chosen {
    pub device: DeviceView,
    /// All that went through its transport by then.
    pub left: Record,
}

/// Whether this is the device that is chosen, with all that went through its transport, or why
/// none is; and `accessed` all that was opened and closed on the way.
///
/// Only candidates are opened, and the choice is made by what came of that. Where it is made,
/// nothing but the chosen device stays open; where it is not, nothing does.
pub open spec fn is_selection<T: FeatureIo, F: Fn(&Device) -> Result<Protocol<T>, Error>>(
    devices: Seq<DeviceView>,
    selector: Option<Seq<char>>,
    resolved: Option<Result<String, OsError>>,
    function: F,
    accessed: Seq<Access>,
    selected: Result<Chosen, ErrorView>,
) -> bool {
    match candidates_outcome(devices, selector, resolved) {
        Err(error) => {
            &&& selected == Err::<Chosen, ErrorView>(error)
            &&& accessed.len() == 0
        },
        Ok(candidates) => exists|visits: Seq<Visit>| #[trigger]
            is_tour(function, candidates, visits) && match conclusion(
                candidates,
                selector is Some,
                visit_probes(visits),
            ) {
                Err(error) => {
                    &&& selected == Err::<Chosen, ErrorView>(error)
                    &&& accessed == visit_accesses(visits) + closings(visits)
                },
                Ok(place) => {
                    &&& selected == Ok::<Chosen, ErrorView>(
                        Chosen { device: candidates[place], left: visits[place].left() },
                    )
                    &&& accessed == visit_accesses(visits)
                },
            },
    }
}

/// A device that was chosen with all that went through its transport, or why none was.
pub open spec fn selected_outcome<T: FeatureIo>(
    selected: Result<(Device, Protocol<T>), Error>,
) -> Result<Chosen, ErrorView> {
    match selected {
        Ok((device, io)) => Ok(Chosen { device: device@, left: io.log() }),
        Err(error) => Err(error@),
    }
}

/// Whether a function opens every device that is a candidate. It need not open any other.
pub open spec fn opens_candidates<T: FeatureIo, F: Fn(&Device) -> Result<Protocol<T>, Error>>(
    function: F,
    devices: Seq<DeviceView>,
    selector: Option<Seq<char>>,
    resolved: Option<Result<String, OsError>>,
) -> bool {
    candidates_outcome(devices, selector, resolved) matches Ok(candidates) ==> forall|
        device: &Device,
    |
        candidates.contains(device@) ==> #[trigger] call_requires(function, (device,))
}

/// What a record of accesses holds beyond an earlier one.
pub open spec fn accessed_since(before: Seq<Access>, after: Seq<Access>) -> Seq<Access> {
    after.skip(before.len() as int)
}

/// Opens a candidate and asks it for its identity. It stays open where it is compatible.
fn visit<T: FeatureIo, F: Fn(&Device) -> Result<Protocol<T>, Error>>(
    device: &Device,
    opener: &mut Opener<F>,
) -> (result: (Probe, Option<Protocol<T>>, Ghost<Visit>))
    requires
        call_requires(old(opener).function(), (device,)),
    ensures
        final(opener).function() == old(opener).function(),
        final(opener).record() == old(opener).record() + result.2@.accesses(),
        is_visit_of(old(opener).function(), device@, result.2@),
        result.0@ == result.2@.probe(),
        result.0 is Compatible <==> result.1 is Some,
        result.1 matches Some(io) ==> {
            &&& io.log() == result.2@.left()
            &&& is_checked(old(opener).function(), device@, io)
        },
{
    let ghost start = opener.record();
    let ghost function = opener.function();
    match opener.open(device) {
        Err(error) => {
            let ghost visit = Visit {
                device: device@,
                opened: Err(error@),
                reads: Seq::empty(),
            };
            assert(call_ensures(function, (device,), Err::<Protocol<T>, Error>(error)));
            assert(opener.record() =~= start + visit.accesses());
            (Probe::Failed(error), None, Ghost(visit))
        },
        Ok(io) => {
            let mut io = io;
            let ghost fresh = io;
            assert(call_ensures(function, (device,), Ok::<Protocol<T>, Error>(fresh)));
            let checked = io.check_identity();
            let ghost reads = choose|reads: Seq<Seq<Exchange>>|
                {
                    &&& is_identity_check(reads)
                    &&& added(fresh.log(), io.log()) == #[trigger] joined(reads)
                    &&& outcome(checked) == identity_outcome(reads)
                };
            let ghost visit = Visit { device: device@, opened: Ok(fresh.log()), reads };
            assert(io.log() =~= fresh.log() + joined(reads));
            assert(exchanged(fresh, io, joined(reads)));
            let probe = judge(checked);
            match &probe {
                Probe::Compatible => {
                    assert(opener.record() =~= start + visit.accesses());
                    (probe, Some(io), Ghost(visit))
                },
                _ => {
                    // Closed at once: the next candidate may be another interface of the device.
                    opener.close(io);
                    assert(opener.record() =~= start + visit.accesses());
                    (probe, None, Ghost(visit))
                },
            }
        },
    }
}

/// Whether the devices that were kept open are those that the visits found compatible, as they
/// left them.
spec fn is_kept_open<T: FeatureIo, F: Fn(&Device) -> Result<Protocol<T>, Error>>(
    function: F,
    visits: Seq<Visit>,
    kept_open: Seq<Option<Protocol<T>>>,
) -> bool {
    &&& kept_open.len() == visits.len()
    &&& forall|i: int|
        0 <= i < visits.len() ==> {
            &&& (#[trigger] kept_open[i]) is Some <==> visits[i].probe() is Compatible
            &&& kept_open[i] matches Some(io) ==> {
                &&& io.log() == visits[i].left()
                &&& is_checked(function, visits[i].device, io)
            }
        }
}

/// Closes the devices that were kept open.
fn close_all<T: FeatureIo, F: Fn(&Device) -> Result<Protocol<T>, Error>>(
    kept_open: Vec<Option<Protocol<T>>>,
    opener: &mut Opener<F>,
    Ghost(visits): Ghost<Seq<Visit>>,
)
    requires
        is_kept_open(old(opener).function(), visits, kept_open@),
    ensures
        final(opener).function() == old(opener).function(),
        final(opener).record() == old(opener).record() + closings(visits),
{
    let ghost start = opener.record();
    assert(visits.take(0) =~= seq![]);
    assert(start =~= start + closings(visits.take(0)));
    for kept in it: kept_open
        invariant
            it.seq() == kept_open@,
            is_kept_open(opener.function(), visits, kept_open@),
            opener.function() == old(opener).function(),
            opener.record() == start + closings(visits.take(it.index() as int)),
    {
        let ghost i = it.index() as int;
        assert(visits.take(i + 1).drop_last() =~= visits.take(i));
        assert(kept == kept_open@[i]);
        if let Some(io) = kept {
            opener.close(io);
            assert(opener.record() =~= start + closings(visits.take(i + 1)));
        }
    }
    assert(visits.take(visits.len() as int) =~= visits);
}

/// Chooses the one device to work with among those that may be it. Each is opened and asked for
/// its identity, until the choice is made or cannot be made.
pub fn select_from<T: FeatureIo, F: Fn(&Device) -> Result<Protocol<T>, Error>>(
    devices: Vec<Device>,
    selector: Option<&str>,
    resolved: &Option<Result<String, OsError>>,
    opener: &mut Opener<F>,
) -> (selected: Result<(Device, Protocol<T>), Error>)
    requires
        opens_candidates(
            old(opener).function(),
            device_views(devices@),
            selector_view(selector),
            *resolved,
        ),
    ensures
        final(opener).function() == old(opener).function(),
        old(opener).record().is_prefix_of(final(opener).record()),
        is_selection(
            device_views(devices@),
            selector_view(selector),
            *resolved,
            old(opener).function(),
            accessed_since(old(opener).record(), final(opener).record()),
            selected_outcome(selected),
        ),
        selected matches Ok((device, io)) ==> is_checked(old(opener).function(), device@, io),
{
    let ghost start = opener.record();
    let ghost function = opener.function();
    let mut kept = match candidates(devices, selector, resolved) {
        Ok(kept) => kept,
        Err(error) => {
            return Err(error);
        },
    };
    let ghost views = device_views(kept@);
    let mut probes: Vec<Probe> = Vec::new();
    let mut kept_open: Vec<Option<Protocol<T>>> = Vec::new();
    let ghost mut visits: Seq<Visit> = seq![];
    assert(visit_probes(visits) =~= probe_views(probes@));
    assert(opener.record() =~= start + visit_accesses(visits));
    while !over(&kept, &probes)
        invariant
            forall|device: &Device|
                views.contains(device@) ==> #[trigger] call_requires(function, (device,)),
            opener.function() == function,
            views == device_views(kept@),
            visits.len() == probes@.len() <= views.len(),
            visit_probes(visits) == probe_views(probes@),
            opener.record() == start + visit_accesses(visits),
            is_kept_open(function, visits, kept_open@),
            forall|count: int|
                0 <= count < visits.len() ==> !is_over(
                    views,
                    #[trigger] visit_probes(visits).take(count),
                ),
            forall|i: int|
                0 <= i < visits.len() ==> is_visit_of(function, views[i], #[trigger] visits[i]),
        decreases views.len() - visits.len(),
    {
        let next = probes.len();
        let ghost earlier = visits;
        let ghost seen = probe_views(probes@);
        let ghost open_before = kept_open@;
        assert(views[next as int] == kept@[next as int]@);
        assert(views.contains(kept@[next as int]@));
        let (probe, io, Ghost(made)) = visit(&kept[next], opener);
        let ghost shown = probe@;
        probes.push(probe);
        kept_open.push(io);
        proof {
            visits = visits.push(made);
            assert(visits.drop_last() =~= earlier);
            assert(opener.record() =~= start + visit_accesses(visits));
            assert(probe_views(probes@) =~= seen.push(shown));
            assert(visit_probes(visits) =~= seen.push(shown));
            let now = visit_probes(visits);
            assert forall|count: int| 0 <= count < visits.len() implies !is_over(
                views,
                #[trigger] now.take(count),
            ) by {
                if count < next {
                    assert(now.take(count) =~= seen.take(count));
                } else {
                    assert(now.take(count) =~= seen);
                }
            }
            assert forall|i: int| 0 <= i < visits.len() implies is_visit_of(
                function,
                views[i],
                #[trigger] visits[i],
            ) by {
                if i < next {
                    assert(visits[i] == earlier[i]);
                }
            }
            assert(is_kept_open(function, visits, kept_open@)) by {
                assert forall|i: int| 0 <= i < visits.len() implies {
                    &&& (#[trigger] kept_open@[i]) is Some <==> visits[i].probe() is Compatible
                    &&& kept_open@[i] matches Some(io) ==> {
                        &&& io.log() == visits[i].left()
                        &&& is_checked(function, visits[i].device, io)
                    }
                } by {
                    if i < next {
                        assert(kept_open@[i] == open_before[i]);
                    }
                }
            }
        }
    }
    proof {
        assert(is_tour(function, views, visits));
        compatible_is_there(visit_probes(visits));
    }
    match conclude(&kept, selector.is_some(), probes) {
        Err(error) => {
            close_all(kept_open, opener, Ghost(visits));
            assert(accessed_since(start, opener.record()) =~= visit_accesses(visits) + closings(
                visits,
            ));
            Err(error)
        },
        Ok(place) => {
            assert(visit_probes(visits)[place as int] == visits[place as int].probe());
            assert(kept_open@[place as int] is Some);
            assert(views[place as int] == kept@[place as int]@);
            assert(accessed_since(start, opener.record()) =~= visit_accesses(visits));
            let device = kept.swap_remove(place);
            match kept_open.swap_remove(place) {
                Some(io) => Ok((device, io)),
                None => Err(Error::new(3, "no_device", "no known-compatible device found")),
            }
        },
    }
}

/// Whether there is nothing more to probe.
fn over(candidates: &Vec<Device>, probes: &Vec<Probe>) -> (yes: bool)
    ensures
        yes == is_over(device_views(candidates@), probe_views(probes@)),
{
    let ghost views = device_views(candidates@);
    let ghost seen = probe_views(probes@);
    let next = probes.len();
    if next >= candidates.len() {
        return true;
    }
    if next > 0 {
        assert(seen.last() == probes@[next - 1]@);
        if let Probe::Failed(_) = &probes[next - 1] {
            return true;
        }
    }
    let mut k: usize = 0;
    while k < next
        invariant
            k <= next,
            next == probes@.len(),
            next < candidates@.len(),
            views == device_views(candidates@),
            seen == probe_views(probes@),
            forall|j: int|
                0 <= j < k ==> !((#[trigger] seen[j]) is Compatible && views[j].selector
                    == views[next as int].selector),
        decreases next - k,
    {
        assert(seen[k as int] == probes@[k as int]@);
        if let Probe::Compatible = &probes[k] {
            if same(candidates[k].selector.as_str(), candidates[next].selector.as_str()) {
                assert(repeats(views, seen, next as int));
                return true;
            }
        }
        k = k + 1;
    }
    false
}

/// Only supported devices are candidates, and only devices that were found.
pub proof fn candidates_are_supported(
    devices: Seq<DeviceView>,
    selector: Option<Seq<char>>,
    resolved: Option<Result<String, OsError>>,
    kept: Seq<DeviceView>,
)
    requires
        candidates_outcome(devices, selector, resolved) == Ok::<Seq<DeviceView>, ErrorView>(kept),
    ensures
        forall|i: int|
            0 <= i < kept.len() ==> is_supported(#[trigger] kept[i]) && devices.contains(kept[i]),
{
    let supported = |device: DeviceView| is_supported(device);
    let named = match selector {
        None => |device: DeviceView| true,
        Some(selector) => if form_of(selector) is Physical {
            |device: DeviceView| device.selector == selector
        } else {
            |device: DeviceView| device.path == resolved_outcome(selector, resolved)->Ok_0
        },
    };
    let matching = if selector is None {
        devices
    } else {
        devices.filter(named)
    };
    assert(kept == matching.filter(supported));
    assert forall|i: int| 0 <= i < kept.len() implies is_supported(#[trigger] kept[i])
        && devices.contains(kept[i]) by {
        matching.lemma_filter_pred(supported, i);
        assert(kept.contains(kept[i]));
        matching.lemma_filter_contains_rev(supported, kept[i]);
        if selector is Some {
            devices.lemma_filter_contains_rev(named, kept[i]);
        }
    }
}

/// The selector that a listing shows finds its device again, and nothing on another physical
/// device. An unsupported device is found too, and refused.
pub proof fn listed_selector_finds_its_device(
    devices: Seq<DeviceView>,
    entry: HidrawEntry,
    device: DeviceView,
    resolved: Option<Result<String, OsError>>,
)
    requires
        described(entry) == Ok::<DeviceView, ErrorView>(device),
        devices.contains(device),
    ensures
        is_supported(device) ==> (candidates_outcome(devices, Some(device.selector), resolved)
            matches Ok(kept) && {
            &&& kept.contains(device)
            &&& forall|i: int|
                0 <= i < kept.len() ==> (#[trigger] kept[i]).selector == device.selector
        }),
        (forall|i: int|
            0 <= i < devices.len() && (#[trigger] devices[i]).selector == device.selector
                ==> !is_supported(devices[i])) ==> candidates_outcome(
            devices,
            Some(device.selector),
            resolved,
        ) == Err::<Seq<DeviceView>, ErrorView>(
            ErrorView::unsupported("selected device has no supported profile"@),
        ),
{
    let supported = |device: DeviceView| is_supported(device);
    let selector = device.selector;
    let named = |device: DeviceView| device.selector == selector;
    let matching = devices.filter(named);
    let kept = matching.filter(supported);
    assert(begins(selector, "sysfs:"@)) by {
        assert(selector.take("sysfs:"@.len() as int) =~= "sysfs:"@);
    }
    let at = choose|at: int| 0 <= at < devices.len() && devices[at] == device;
    devices.lemma_filter_contains(named, at);
    assert(matching.contains(device));
    let place = choose|place: int| 0 <= place < matching.len() && matching[place] == device;
    if is_supported(device) {
        matching.lemma_filter_contains(supported, place);
        assert(kept.contains(device));
        assert forall|i: int| 0 <= i < kept.len() implies (#[trigger] kept[i]).selector
            == selector by {
            assert(kept.contains(kept[i]));
            matching.lemma_filter_contains_rev(supported, kept[i]);
            let k = choose|k: int| 0 <= k < matching.len() && matching[k] == kept[i];
            devices.lemma_filter_pred(named, k);
        }
    }
    if forall|i: int|
        0 <= i < devices.len() && (#[trigger] devices[i]).selector == selector ==> !is_supported(
            devices[i],
        ) {
        if kept.len() > 0 {
            matching.lemma_filter_pred(supported, 0);
            assert(kept.contains(kept[0]));
            matching.lemma_filter_contains_rev(supported, kept[0]);
            let k = choose|k: int| 0 <= k < matching.len() && matching[k] == kept[0];
            devices.lemma_filter_pred(named, k);
            devices.lemma_filter_contains_rev(named, kept[0]);
            let i = choose|i: int| 0 <= i < devices.len() && devices[i] == kept[0];
            assert(devices[i].selector == selector);
        }
    }
}

proof fn failure_is_last(candidates: Seq<DeviceView>, probes: Seq<ProbeView>, at: int)
    requires
        is_survey(candidates, probes),
        0 <= at < probes.len(),
        probes[at] is Failed,
    ensures
        at == probes.len() - 1,
{
    if at < probes.len() - 1 {
        let shorter = probes.take(at + 1);
        assert(shorter.last() == probes[at]);
        assert(!is_over(candidates, shorter));
    }
}

/// A candidate that cannot be opened or asked is never passed over: its failure is what the
/// selection comes to.
pub proof fn failed_probe_is_reported(
    candidates: Seq<DeviceView>,
    explicit: bool,
    probes: Seq<ProbeView>,
    at: int,
)
    requires
        is_survey(candidates, probes),
        0 <= at < probes.len(),
        probes[at] is Failed,
    ensures
        conclusion(candidates, explicit, probes) == Err::<int, ErrorView>(probes[at]->Failed_0),
{
    failure_is_last(candidates, probes, at);
}

proof fn one_is_one(probes: Seq<ProbeView>, at: int)
    requires
        0 <= at < probes.len(),
        probes[at] is Compatible,
    ensures
        compatible_count(probes) >= 1,
        compatible_count(probes) == 1 ==> at == last_compatible(probes),
    decreases probes.len(),
{
    let earlier = probes.drop_last();
    if at < probes.len() - 1 {
        assert(earlier[at] == probes[at]);
        one_is_one(earlier, at);
    }
}

/// The device that is chosen was found compatible, every other candidate was asked, and each of
/// them was rejected for its identity.
pub proof fn chosen_device_is_the_only_one(
    candidates: Seq<DeviceView>,
    explicit: bool,
    probes: Seq<ProbeView>,
    place: int,
)
    requires
        is_survey(candidates, probes),
        conclusion(candidates, explicit, probes) == Ok::<int, ErrorView>(place),
    ensures
        probes.len() == candidates.len(),
        0 <= place < probes.len(),
        probes[place] is Compatible,
        forall|i: int| 0 <= i < probes.len() && i != place ==> (#[trigger] probes[i]) is Rejected,
{
    compatible_is_there(probes);
    assert forall|i: int| 0 <= i < probes.len() && i != place implies (
    #[trigger] probes[i]) is Rejected by {
        if probes[i] is Failed {
            failure_is_last(candidates, probes, i);
        }
        if probes[i] is Compatible {
            one_is_one(probes, i);
        }
    }
}

/// Where two candidates are compatible, or a second interface of a compatible one is left, the
/// choice is ambiguous, unless a candidate failed.
pub proof fn two_compatible_are_ambiguous(
    candidates: Seq<DeviceView>,
    explicit: bool,
    probes: Seq<ProbeView>,
)
    requires
        is_survey(candidates, probes),
        forall|i: int| 0 <= i < probes.len() ==> !((#[trigger] probes[i]) is Failed),
        probes.len() < candidates.len() || exists|i: int, j: int|
            0 <= i < j < probes.len() && (#[trigger] probes[i]) is Compatible && (
            #[trigger] probes[j]) is Compatible,
    ensures
        conclusion(candidates, explicit, probes) matches Err(error) && error.kind == "ambiguous"@
            && error.exit_code == 4,
{
    if probes.len() > 0 {
        assert(!(probes[probes.len() - 1] is Failed));
    }
    if probes.len() >= candidates.len() {
        let (i, j) = choose|i: int, j: int|
            0 <= i < j < probes.len() && (#[trigger] probes[i]) is Compatible && (
            #[trigger] probes[j]) is Compatible;
        one_is_one(probes, i);
        one_is_one(probes, j);
    }
}

/// The devices that were opened, or that somebody tried to open, in order.
pub open spec fn opened_devices(accessed: Seq<Access>) -> Seq<DeviceView>
    decreases accessed.len(),
{
    if accessed.len() == 0 {
        seq![]
    } else {
        match accessed.last() {
            Access::Opened { device, .. } => opened_devices(accessed.drop_last()).push(device),
            Access::Closed { .. } => opened_devices(accessed.drop_last()),
        }
    }
}

proof fn opened_join(first: Seq<Access>, second: Seq<Access>)
    ensures
        opened_devices(first + second) == opened_devices(first) + opened_devices(second),
    decreases second.len(),
{
    let all = first + second;
    if second.len() == 0 {
        assert(all =~= first);
        assert(opened_devices(first) + opened_devices(second) =~= opened_devices(first));
    } else {
        assert(all.drop_last() =~= first + second.drop_last());
        opened_join(first, second.drop_last());
        assert(opened_devices(all) =~= opened_devices(first) + opened_devices(second));
    }
}

proof fn visits_open_each_once(visits: Seq<Visit>)
    ensures
        opened_devices(visit_accesses(visits)) == visits.map_values(|visit: Visit| visit.device),
        opened_devices(closings(visits)) == Seq::<DeviceView>::empty(),
    decreases visits.len(),
{
    let opened = visits.map_values(|visit: Visit| visit.device);
    if visits.len() == 0 {
        assert(opened =~= seq![]);
    } else {
        let earlier = visits.drop_last();
        let last = visits.last();
        visits_open_each_once(earlier);
        opened_join(visit_accesses(earlier), last.accesses());
        reveal_with_fuel(opened_devices, 3);
        let one = seq![Access::Opened { device: last.device, result: last.opened }];
        assert(one.drop_last() =~= seq![]);
        assert(one.push(Access::Closed { log: last.left() }).drop_last() =~= one);
        assert(opened_devices(last.accesses()) =~= seq![last.device]);
        assert(opened =~= earlier.map_values(|visit: Visit| visit.device).push(last.device));
        assert(opened_devices(visit_accesses(visits)) =~= opened);
        if last.probe() is Compatible {
            assert(closings(visits).drop_last() =~= closings(earlier));
        }
    }
}

proof fn tour_opens_candidates<T: FeatureIo, F: Fn(&Device) -> Result<Protocol<T>, Error>>(
    function: F,
    candidates: Seq<DeviceView>,
    visits: Seq<Visit>,
)
    requires
        is_tour(function, candidates, visits),
    ensures
        visits.len() <= candidates.len(),
        opened_devices(visit_accesses(visits)) == candidates.take(visits.len() as int),
        opened_devices(visit_accesses(visits) + closings(visits)) == candidates.take(
            visits.len() as int,
        ),
{
    visits_open_each_once(visits);
    opened_join(visit_accesses(visits), closings(visits));
    assert(visit_probes(visits).len() == visits.len());
    let opened = visits.map_values(|visit: Visit| visit.device);
    assert forall|i: int| 0 <= i < visits.len() implies opened[i] == candidates[i] by {
        assert(is_visit_of(function, candidates[i], visits[i]));
    }
    assert(opened =~= candidates.take(visits.len() as int));
    assert(opened + Seq::<DeviceView>::empty() =~= opened);
}

/// The visits of a selection.
pub(crate) proof fn tour_of<T: FeatureIo, F: Fn(&Device) -> Result<Protocol<T>, Error>>(
    devices: Seq<DeviceView>,
    selector: Option<Seq<char>>,
    resolved: Option<Result<String, OsError>>,
    function: F,
    accessed: Seq<Access>,
    selected: Result<Chosen, ErrorView>,
) -> (visits: Seq<Visit>)
    requires
        is_selection(devices, selector, resolved, function, accessed, selected),
        candidates_outcome(devices, selector, resolved) is Ok,
    ensures
        is_tour(function, candidates_outcome(devices, selector, resolved)->Ok_0, visits),
        match conclusion(
            candidates_outcome(devices, selector, resolved)->Ok_0,
            selector is Some,
            visit_probes(visits),
        ) {
            Err(error) => {
                &&& selected == Err::<Chosen, ErrorView>(error)
                &&& accessed == visit_accesses(visits) + closings(visits)
            },
            Ok(place) => {
                &&& selected matches Ok(chosen) && chosen.left == visits[place].left()
                &&& accessed == visit_accesses(visits)
            },
        },
{
    let candidates = candidates_outcome(devices, selector, resolved)->Ok_0;
    choose|visits: Seq<Visit>| #[trigger]
        is_tour(function, candidates, visits) && match conclusion(
            candidates,
            selector is Some,
            visit_probes(visits),
        ) {
            Err(error) => {
                &&& selected == Err::<Chosen, ErrorView>(error)
                &&& accessed == visit_accesses(visits) + closings(visits)
            },
            Ok(place) => {
                &&& selected == Ok::<Chosen, ErrorView>(
                    Chosen { device: candidates[place], left: visits[place].left() },
                )
                &&& accessed == visit_accesses(visits)
            },
        }
}

/// A selection opens candidates and nothing else: the first of them, in order and each once.
/// Unsupported devices are never opened.
pub proof fn only_candidates_are_opened<
    T: FeatureIo,
    F: Fn(&Device) -> Result<Protocol<T>, Error>,
>(
    devices: Seq<DeviceView>,
    selector: Option<Seq<char>>,
    resolved: Option<Result<String, OsError>>,
    function: F,
    accessed: Seq<Access>,
    selected: Result<Chosen, ErrorView>,
)
    requires
        is_selection(devices, selector, resolved, function, accessed, selected),
    ensures
        match candidates_outcome(devices, selector, resolved) {
            Err(_) => accessed.len() == 0,
            Ok(candidates) => {
                &&& opened_devices(accessed).len() <= candidates.len()
                &&& opened_devices(accessed) == candidates.take(
                    opened_devices(accessed).len() as int,
                )
            },
        },
        forall|i: int|
            0 <= i < opened_devices(accessed).len() ==> is_supported(
                #[trigger] opened_devices(accessed)[i],
            ) && devices.contains(opened_devices(accessed)[i]),
{
    if let Ok(candidates) = candidates_outcome(devices, selector, resolved) {
        let visits = tour_of(devices, selector, resolved, function, accessed, selected);
        tour_opens_candidates(function, candidates, visits);
        candidates_are_supported(devices, selector, resolved, candidates);
        assert forall|i: int| 0 <= i < opened_devices(accessed).len() implies is_supported(
            #[trigger] opened_devices(accessed)[i],
        ) && devices.contains(opened_devices(accessed)[i]) by {
            assert(opened_devices(accessed)[i] == candidates[i]);
        }
    }
}

/// After a candidate that cannot be opened or asked, nothing more is opened, and its failure is
/// what the selection comes to.
pub proof fn nothing_is_opened_after_a_failure<
    T: FeatureIo,
    F: Fn(&Device) -> Result<Protocol<T>, Error>,
>(function: F, candidates: Seq<DeviceView>, explicit: bool, visits: Seq<Visit>, at: int)
    requires
        is_tour(function, candidates, visits),
        0 <= at < visits.len(),
        visits[at].probe() is Failed,
    ensures
        conclusion(candidates, explicit, visit_probes(visits)) == Err::<int, ErrorView>(
            visits[at].probe()->Failed_0,
        ),
        opened_devices(visit_accesses(visits) + closings(visits)) == candidates.take(at + 1),
{
    let probes = visit_probes(visits);
    assert(probes[at] == visits[at].probe());
    failed_probe_is_reported(candidates, explicit, probes, at);
    failure_is_last(candidates, probes, at);
    tour_opens_candidates(function, candidates, visits);
}

} // verus!
