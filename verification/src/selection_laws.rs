//! What holds of choosing a device.
use vstd::prelude::*;

use crate::device::{Device, DeviceView};
use crate::error::{Error, ErrorView, OsError};
use crate::opener::Access;
use crate::protocol::{identity_outcome, is_identity_check, joined, FeatureIo, Protocol};
use crate::selection::{
    candidates_outcome, chosen_device_is_the_only_one, compatible_count, conclusion, form_of,
    closings, is_over, is_selection, is_supported, is_survey, is_tour, is_visit_of, judged,
    last_compatible, last_rejection, repeats, visit_accesses, visit_probes, Chosen,
    ProbeView, SelectorForm, Visit,
};
use crate::text_laws::beginning_is_a_prefix;

verus! {

/// A selector names a physical device where it begins with `sysfs:`, a node where it begins with a
/// slash, and nothing otherwise.
pub proof fn selectors_have_their_forms(selector: Seq<char>, rest: Seq<char>)
    ensures
        form_of("sysfs:"@ + rest) is Physical,
        form_of("/"@ + rest) is Node,
        form_of(selector) is Unknown <==> !(exists|rest: Seq<char>| selector == #[trigger] (
        "sysfs:"@ + rest)) && !(exists|rest: Seq<char>| selector == #[trigger] ("/"@ + rest)),
{
    reveal_strlit("sysfs:");
    reveal_strlit("/");
    beginning_is_a_prefix("sysfs:"@ + rest, "sysfs:"@);
    beginning_is_a_prefix("/"@ + rest, "/"@);
    let node = "/"@ + rest;
    assert(!crate::text::begins(node, "sysfs:"@)) by {
        if crate::text::begins(node, "sysfs:"@) {
            assert(node[0] == '/');
            assert(node.take(6)[0] == 's');
        }
    }
    beginning_is_a_prefix(selector, "sysfs:"@);
    beginning_is_a_prefix(selector, "/"@);
}

/// Whether a device was found to be of the known model.
pub open spec fn is_of_known_model(device: DeviceView) -> bool {
    device.support != "unsupported"@
}

proof fn filters_combine(
    devices: Seq<DeviceView>,
    first: spec_fn(DeviceView) -> bool,
    second: spec_fn(DeviceView) -> bool,
)
    ensures
        devices.filter(first).filter(second) == devices.filter(
            |device: DeviceView| first(device) && second(device),
        ),
    decreases devices.len(),
{
    reveal(Seq::filter);
    if devices.len() > 0 {
        let earlier = devices.drop_last();
        filters_combine(earlier, first, second);
        if first(devices.last()) {
            let kept = earlier.filter(first);
            assert(kept.push(devices.last()).drop_last() =~= kept);
        }
    }
}

proof fn filter_is_empty(devices: Seq<DeviceView>, pred: spec_fn(DeviceView) -> bool)
    ensures
        devices.filter(pred).len() == 0 <==> forall|i: int|
            0 <= i < devices.len() ==> !pred(#[trigger] devices[i]),
    decreases devices.len(),
{
    reveal(Seq::filter);
    if devices.len() > 0 {
        let earlier = devices.drop_last();
        filter_is_empty(earlier, pred);
        if devices.filter(pred).len() == 0 {
            assert forall|i: int| 0 <= i < devices.len() implies !pred(#[trigger] devices[i]) by {
                if i < earlier.len() {
                    assert(earlier[i] == devices[i]);
                }
            }
        } else if forall|i: int| 0 <= i < devices.len() ==> !pred(#[trigger] devices[i]) {
            assert forall|i: int| 0 <= i < earlier.len() implies !pred(#[trigger] earlier[i]) by {
                assert(earlier[i] == devices[i]);
            }
            assert(!pred(devices[devices.len() - 1]));
        }
    }
}

/// Without a selector every device of the known model is a candidate, in the order in which they
/// were found, and no other device is.
pub proof fn without_selector_all_known_devices_are_candidates(
    devices: Seq<DeviceView>,
    resolved: Option<Result<String, OsError>>,
)
    ensures
        candidates_outcome(devices, None, resolved) == Ok::<Seq<DeviceView>, ErrorView>(
            devices.filter(|device: DeviceView| is_of_known_model(device)),
        ),
{
    assert((|device: DeviceView| is_supported(device)) =~= (|device: DeviceView|
        is_of_known_model(device)));
}

/// What the devices that a selector names come to as candidates: those of the known model among
/// them, in order. Where none is named there is no device, and where none of those named is of the
/// known model they are unsupported.
pub open spec fn come_to(
    devices: Seq<DeviceView>,
    named: spec_fn(DeviceView) -> bool,
    outcome: Result<Seq<DeviceView>, ErrorView>,
) -> bool {
    if forall|i: int| 0 <= i < devices.len() ==> !named(#[trigger] devices[i]) {
        outcome matches Err(error) && error.kind == "no_device"@ && error.exit_code == 3
    } else if forall|i: int|
        0 <= i < devices.len() && named(#[trigger] devices[i]) ==> !is_of_known_model(devices[i]) {
        outcome matches Err(error) && error.kind == "unsupported"@ && error.exit_code == 5
    } else {
        outcome == Ok::<Seq<DeviceView>, ErrorView>(
            devices.filter(|device: DeviceView| named(device) && is_of_known_model(device)),
        )
    }
}

proof fn named_come_to(devices: Seq<DeviceView>, named: spec_fn(DeviceView) -> bool)
    ensures
        come_to(devices, named, crate::selection::supported_of(devices.filter(named))),
{
    let supported = |device: DeviceView| is_supported(device);
    let both = |device: DeviceView| named(device) && supported(device);
    filters_combine(devices, named, supported);
    filter_is_empty(devices, named);
    filter_is_empty(devices, both);
    assert(both =~= (|device: DeviceView| named(device) && is_of_known_model(device)));
    if forall|i: int|
        0 <= i < devices.len() && named(#[trigger] devices[i]) ==> !is_of_known_model(devices[i]) {
        assert forall|i: int| 0 <= i < devices.len() implies !both(#[trigger] devices[i]) by {}
    } else {
        let i = choose|i: int|
            0 <= i < devices.len() && named(#[trigger] devices[i]) && is_of_known_model(devices[i]);
        assert(both(devices[i]));
    }
}

/// A selector that begins with `sysfs:` names the devices that show it; one that begins with a
/// slash names the devices whose node it was resolved to. Any other is an invalid request. A path
/// that leads nowhere is no device; one that cannot be resolved otherwise is a failure of the
/// system.
pub proof fn a_selector_names_its_devices(
    devices: Seq<DeviceView>,
    selector: Seq<char>,
    resolved: Option<Result<String, OsError>>,
)
    ensures
        match form_of(selector) {
            SelectorForm::Physical => come_to(
                devices,
                |device: DeviceView| device.selector == selector,
                candidates_outcome(devices, Some(selector), resolved),
            ),
            SelectorForm::Node => match resolved {
                Some(Ok(path)) => come_to(
                    devices,
                    |device: DeviceView| device.path == path@,
                    candidates_outcome(devices, Some(selector), resolved),
                ),
                Some(Err(failure)) => candidates_outcome(
                    devices,
                    Some(selector),
                    resolved,
                ) matches Err(error) && if failure.kind is NotFound {
                    error.kind == "no_device"@ && error.exit_code == 3
                } else {
                    error == ErrorView::io(selector, failure.kind, failure.detail@)
                },
                None => candidates_outcome(devices, Some(selector), resolved) matches Err(error)
                    && error.kind == "no_device"@ && error.exit_code == 3,
            },
            SelectorForm::Unknown => candidates_outcome(
                devices,
                Some(selector),
                resolved,
            ) matches Err(error) && error.kind == "invalid_request"@ && error.exit_code == 2,
        },
{
    match form_of(selector) {
        SelectorForm::Physical => {
            named_come_to(devices, |device: DeviceView| device.selector == selector);
        },
        SelectorForm::Node => {
            if let Some(Ok(path)) = resolved {
                named_come_to(devices, |device: DeviceView| device.path == path@);
            }
        },
        SelectorForm::Unknown => {},
    }
}

/// A candidate whose identity is the expected one is compatible. One that is refused with exit code
/// five is rejected; any other failure is a failure of the probe.
pub proof fn candidates_are_judged_by_identity(error: ErrorView)
    ensures
        judged(Ok(())) == ProbeView::Compatible,
        judged(Err(error)) == (if error.exit_code == 5 {
            ProbeView::Rejected(error)
        } else {
            ProbeView::Failed(error)
        }),
{
}

/// Candidates are probed in order. Probing ends early only after a failure, or before another
/// interface of a physical device that was found compatible; and it does not go on after either.
pub proof fn probing_ends_only_for_a_reason(
    candidates: Seq<DeviceView>,
    probes: Seq<ProbeView>,
    i: int,
    j: int,
)
    requires
        is_survey(candidates, probes),
    ensures
        probes.len() <= candidates.len(),
        probes.len() < candidates.len() ==> probes.len() > 0 && (probes.last() is Failed || exists|
            k: int,
        |
            0 <= k < probes.len() && (#[trigger] probes[k]) is Compatible && candidates[k].selector
                == candidates[probes.len() as int].selector),
        0 <= i < probes.len() - 1 ==> !(probes[i] is Failed),
        0 <= i < j < probes.len() && probes[i] is Compatible ==> candidates[i].selector
            != candidates[j].selector,
{
    if probes.len() < candidates.len() && !(probes.len() > 0 && probes.last() is Failed) {
        assert(repeats(candidates, probes, probes.len() as int));
        let k = choose|k: int|
            0 <= k < probes.len() && (#[trigger] probes[k]) is Compatible && candidates[k].selector
                == candidates[probes.len() as int].selector;
    }
    if 0 <= i < probes.len() - 1 && probes[i] is Failed {
        let shorter = probes.take(i + 1);
        assert(shorter.last() == probes[i]);
        assert(!is_over(candidates, shorter));
    }
    if 0 <= i < j < probes.len() && probes[i] is Compatible && candidates[i].selector
        == candidates[j].selector {
        let shorter = probes.take(j);
        assert(shorter[i] == probes[i]);
        assert(repeats(candidates, shorter, j));
        assert(!is_over(candidates, shorter));
    }
}

proof fn count_of_one(probes: Seq<ProbeView>, place: int)
    requires
        0 <= place < probes.len(),
        probes[place] is Compatible,
        forall|i: int|
            0 <= i < probes.len() && i != place ==> !((#[trigger] probes[i]) is Compatible),
    ensures
        compatible_count(probes) == 1,
        last_compatible(probes) == place,
    decreases probes.len(),
{
    let earlier = probes.drop_last();
    if place == probes.len() - 1 {
        assert forall|i: int| 0 <= i < earlier.len() implies !((#[trigger] earlier[i]) is Compatible) by {
            assert(earlier[i] == probes[i]);
        }
        count_of_none(earlier);
    } else {
        assert(!(probes[probes.len() - 1] is Compatible));
        assert(earlier[place] == probes[place]);
        assert forall|i: int| 0 <= i < earlier.len() && i != place implies !((
        #[trigger] earlier[i]) is Compatible) by {
            assert(earlier[i] == probes[i]);
        }
        count_of_one(earlier, place);
    }
}

proof fn count_of_none(probes: Seq<ProbeView>)
    requires
        forall|i: int| 0 <= i < probes.len() ==> !((#[trigger] probes[i]) is Compatible),
    ensures
        compatible_count(probes) == 0,
    decreases probes.len(),
{
    if probes.len() > 0 {
        let earlier = probes.drop_last();
        assert forall|i: int| 0 <= i < earlier.len() implies !((#[trigger] earlier[i]) is Compatible) by {
            assert(earlier[i] == probes[i]);
        }
        assert(!(probes[probes.len() - 1] is Compatible));
        count_of_none(earlier);
    }
}

/// Where one candidate is compatible and every other was rejected, that one is chosen, and this is
/// the only way for a device to be chosen.
pub proof fn the_only_compatible_device_is_chosen(
    candidates: Seq<DeviceView>,
    explicit: bool,
    probes: Seq<ProbeView>,
    place: int,
)
    requires
        is_survey(candidates, probes),
    ensures
        conclusion(candidates, explicit, probes) == Ok::<int, ErrorView>(place) <==> {
            &&& probes.len() == candidates.len()
            &&& 0 <= place < probes.len()
            &&& probes[place] is Compatible
            &&& forall|i: int|
                0 <= i < probes.len() && i != place ==> (#[trigger] probes[i]) is Rejected
        },
{
    if conclusion(candidates, explicit, probes) == Ok::<int, ErrorView>(place) {
        chosen_device_is_the_only_one(candidates, explicit, probes, place);
    }
    if probes.len() == candidates.len() && 0 <= place < probes.len() && probes[place] is Compatible
        && forall|i: int|
        0 <= i < probes.len() && i != place ==> (#[trigger] probes[i]) is Rejected {
        count_of_one(probes, place);
        assert(!(probes[probes.len() - 1] is Failed));
    }
}

/// Where every candidate was rejected there is no device; where a selector was given, the reason
/// for which the last was rejected is told instead. Without candidates there is no device.
pub proof fn rejected_devices_are_not_chosen(
    candidates: Seq<DeviceView>,
    explicit: bool,
    probes: Seq<ProbeView>,
)
    requires
        probes.len() == candidates.len(),
        forall|i: int| 0 <= i < probes.len() ==> (#[trigger] probes[i]) is Rejected,
    ensures
        conclusion(candidates, explicit, probes) matches Err(error) && if explicit && probes.len()
            > 0 {
            probes.last() == ProbeView::Rejected(error)
        } else {
            error.kind == "no_device"@ && error.exit_code == 3
        },
{
    count_of_none(probes);
    if probes.len() > 0 {
        assert(probes[probes.len() - 1] is Rejected);
        assert(last_rejection(probes) == Some(probes.last()->Rejected_0));
    }
}

/// What a visit comes to, and what is opened and closed for it. A candidate that cannot be opened is
/// a failure, never passed over. One that can is judged by its identity check, which alone goes
/// through it; unless it is compatible it is closed before anything else is opened.
pub proof fn a_visit_is_an_identity_check(visit: Visit)
    ensures
        visit.opened matches Err(error) ==> visit.probe() == ProbeView::Failed(error)
            && visit.accesses() == seq![
            Access::Opened { device: visit.device, result: visit.opened },
        ],
        visit.opened matches Ok(start) ==> {
            &&& visit.left() == start + joined(visit.reads)
            &&& visit.probe() == (match identity_outcome(visit.reads) {
                Ok(()) => ProbeView::Compatible,
                Err(error) => if error.exit_code == 5 {
                    ProbeView::Rejected(error)
                } else {
                    ProbeView::Failed(error)
                },
            })
            &&& visit.accesses() == (if identity_outcome(visit.reads) is Ok {
                seq![Access::Opened { device: visit.device, result: visit.opened }]
            } else {
                seq![
                    Access::Opened { device: visit.device, result: visit.opened },
                    Access::Closed { log: start + joined(visit.reads) },
                ]
            })
        },
{
    let opened = seq![Access::Opened { device: visit.device, result: visit.opened }];
    assert(opened.push(Access::Closed { log: visit.left() }) =~= seq![
        Access::Opened { device: visit.device, result: visit.opened },
        Access::Closed { log: visit.left() },
    ]);
}

/// Visits are made one after the other.
pub proof fn visits_are_made_in_turn(visits: Seq<Visit>, visit: Visit)
    ensures
        visit_accesses(Seq::<Visit>::empty()) == Seq::<Access>::empty(),
        visit_accesses(visits.push(visit)) == visit_accesses(visits) + visit.accesses(),
        visit_probes(visits.push(visit)) == visit_probes(visits).push(visit.probe()),
        closings(Seq::<Visit>::empty()) == Seq::<Access>::empty(),
        closings(visits.push(visit)) == (if visit.probe() is Compatible {
            closings(visits).push(Access::Closed { log: visit.left() })
        } else {
            closings(visits)
        }),
{
    assert(visits.push(visit).drop_last() =~= visits);
    assert(visit_probes(visits.push(visit)) =~= visit_probes(visits).push(visit.probe()));
}

/// A selection visits candidates in order and each once, asks each for its identity, and comes to
/// what the probes say: the only compatible candidate, with nothing but its identity check gone
/// through it, or a failure. Where it is a failure, all that is still open is closed.
pub proof fn a_selection_goes_by_its_visits<
    T: FeatureIo,
    F: Fn(&Device) -> Result<Protocol<T>, Error>,
>(
    devices: Seq<DeviceView>,
    selector: Option<Seq<char>>,
    resolved: Option<Result<String, OsError>>,
    function: F,
    accessed: Seq<Access>,
    selected: Result<Chosen, ErrorView>,
)
    requires
        is_selection(devices, selector, resolved, function, accessed, selected),
    ensures
        match candidates_outcome(devices, selector, resolved) {
            Err(error) => selected == Err::<Chosen, ErrorView>(error) && accessed.len() == 0,
            Ok(candidates) => exists|visits: Seq<Visit>|
                {
                    &&& visits.len() <= candidates.len()
                    &&& is_survey(candidates, #[trigger] visit_probes(visits))
                    &&& forall|i: int|
                        0 <= i < visits.len() ==> {
                            &&& (#[trigger] visits[i]).device == candidates[i]
                            &&& visits[i].opened is Ok ==> is_identity_check(visits[i].reads)
                        }
                    &&& match conclusion(candidates, selector is Some, visit_probes(visits)) {
                        Ok(place) => {
                            &&& 0 <= place < visits.len()
                            &&& selected matches Ok(chosen) && chosen.device == candidates[place]
                                && chosen.left == visits[place].opened->Ok_0 + joined(
                                visits[place].reads,
                            )
                            &&& accessed == visit_accesses(visits)
                        },
                        Err(error) => {
                            &&& selected == Err::<Chosen, ErrorView>(error)
                            &&& accessed == visit_accesses(visits) + closings(visits)
                        },
                    }
                },
        },
{
    if let Ok(candidates) = candidates_outcome(devices, selector, resolved) {
        let visits = choose|visits: Seq<Visit>| #[trigger]
            is_tour(function, candidates, visits) && match conclusion(
                candidates,
                selector is Some,
                visit_probes(visits),
            ) {
                Err(error) => {
                    &&& selected == Err::<Chosen, ErrorView>(error)
                    &&& accessed == visit_accesses(visits) + closings(visits)
                },
                Ok(place) => {
                    &&& selected == Ok::<Chosen, ErrorView>(
                        Chosen { device: candidates[place], left: visits[place].left() },
                    )
                    &&& accessed == visit_accesses(visits)
                },
            };
        let probes = visit_probes(visits);
        assert(probes.len() == visits.len());
        assert forall|i: int| 0 <= i < visits.len() implies {
            &&& (#[trigger] visits[i]).device == candidates[i]
            &&& visits[i].opened is Ok ==> is_identity_check(visits[i].reads)
        } by {
            assert(is_visit_of(function, candidates[i], visits[i]));
        }
        if let Ok(place) = conclusion(candidates, selector is Some, probes) {
            chosen_device_is_the_only_one(candidates, selector is Some, probes, place);
        }
        assert(is_survey(candidates, visit_probes(visits)));
    }
}

} // verus!
