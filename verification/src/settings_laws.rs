//! What holds of settings, of the updates that may be asked for, and of the plans to make them.
use vstd::prelude::*;

use crate::elan::{
    feedback, hysteresis, is_snapshot, shown_settings, snapshot_outcome, state_check,
    target_outcome, update_check, updated, with_feedback, ChangeView, Update, REGS,
};
use crate::error::ErrorView;
use crate::plan::{
    carried_out, plan_is_in_order, plan_keeps_hysteresis, plan_leads_to_target,
    plan_names_what_differs, plan_outcome, planned,
};
use crate::protocol::{is_read, read_outcome, Exchange};

verus! {

/// Press, release and drag release threshold stand in the registers 0x03a2, 0x03a3 and 0x03a4, and
/// the control bits in 0x03a1.
pub proof fn settings_have_their_registers()
    ensures
        REGS@.len() == 4,
        REGS@[0] == 0x03a2,
        REGS@[1] == 0x03a3,
        REGS@[2] == 0x03a4,
        REGS@[3] == 0x03a1,
{
}

/// Bit 8 of the control bits.
pub open spec fn bit_8(control: u16) -> bool {
    control & 0x0100 != 0
}

/// The settings that are shown are the three thresholds as the registers hold them, and feedback
/// is on exactly where bit 8 of the control bits is set. No other control bit has a part in it.
pub proof fn settings_are_what_registers_hold(state: Seq<u16>, control: u16)
    requires
        state.len() == 4,
    ensures
        shown_settings(state).press_threshold == state[0],
        shown_settings(state).release_threshold == state[1],
        shown_settings(state).drag_release_threshold == state[2],
        shown_settings(state).haptics <==> bit_8(state[3]),
        bit_8(control) == bit_8(state[3]) ==> shown_settings(state.update(3, control))
            == shown_settings(state),
        shown_settings(state.update(3, state[3] | 0x0100)).haptics,
        !shown_settings(state.update(3, state[3] & 0xfeff)).haptics,
{
    let old_control = state[3];
    assert((old_control | 0x0100u16) & 0x0100u16 != 0) by (bit_vector);
    assert((old_control & 0xfeffu16) & 0x0100u16 == 0) by (bit_vector);
}

/// Feedback is bit 8, and switching it changes bit 8 and no other bit.
pub proof fn feedback_is_bit_8(control: u16, on: bool)
    ensures
        feedback(control) == bit_8(control),
        feedback(with_feedback(control, on)) == on,
        with_feedback(control, on) == (if on {
            control | 0x0100
        } else {
            control & 0xfeff
        }),
        feedback(control) == on ==> with_feedback(control, on) == control,
{
    assert((control & !0x0100u16) | 0x0100u16 == control | 0x0100u16) by (bit_vector);
    assert((control & !0x0100u16) | 0u16 == control & 0xfeffu16) by (bit_vector);
    assert((control | 0x0100u16) & 0x0100u16 != 0) by (bit_vector);
    assert((control & 0xfeffu16) & 0x0100u16 == 0) by (bit_vector);
    assert(control & 0x0100u16 != 0 ==> control | 0x0100u16 == control) by (bit_vector);
    assert(control & 0x0100u16 == 0 ==> control & 0xfeffu16 == control) by (bit_vector);
}

/// Settings that are shown alike come from states that hold the same thresholds and the same bit
/// 8.
pub proof fn settings_tell_states_apart(first: Seq<u16>, second: Seq<u16>)
    requires
        first.len() == 4,
        second.len() == 4,
    ensures
        shown_settings(first) == shown_settings(second) <==> first[0] == second[0] && first[1]
            == second[1] && first[2] == second[2] && bit_8(first[3]) == bit_8(second[3]),
{
}

/// A state is read from the four registers one after the other. It holds what each read gave; where
/// a read fails, nothing more is read and its failure is what the reading comes to.
pub proof fn a_state_is_what_was_read(reads: Seq<Seq<Exchange>>)
    requires
        is_snapshot(reads),
    ensures
        1 <= reads.len() <= 4,
        is_read(0x03a2, reads[0]),
        reads.len() > 1 ==> is_read(0x03a3, reads[1]),
        reads.len() > 2 ==> is_read(0x03a4, reads[2]),
        reads.len() > 3 ==> is_read(0x03a1, reads[3]),
        match snapshot_outcome(reads) {
            Ok(state) => {
                &&& reads.len() == 4
                &&& state.len() == 4
                &&& read_outcome(0x03a2, reads[0]) == Ok::<u16, ErrorView>(state[0])
                &&& read_outcome(0x03a3, reads[1]) == Ok::<u16, ErrorView>(state[1])
                &&& read_outcome(0x03a4, reads[2]) == Ok::<u16, ErrorView>(state[2])
                &&& read_outcome(0x03a1, reads[3]) == Ok::<u16, ErrorView>(state[3])
            },
            Err(error) => {
                let failed = Err::<u16, ErrorView>(error);
                ||| reads.len() == 1 && read_outcome(0x03a2, reads[0]) == failed
                ||| reads.len() == 2 && read_outcome(0x03a3, reads[1]) == failed
                ||| reads.len() == 3 && read_outcome(0x03a4, reads[2]) == failed
                ||| reads.len() == 4 && read_outcome(0x03a1, reads[3]) == failed
            },
        },
{
    settings_have_their_registers();
    assert(is_read(REGS@[0], reads[0]));
    assert(reads[reads.len() - 1] == reads.last());
    if reads.len() > 1 {
        assert(is_read(REGS@[1], reads[1]));
        assert(read_outcome(REGS@[0], reads[0]) is Ok);
    }
    if reads.len() > 2 {
        assert(is_read(REGS@[2], reads[2]));
        assert(read_outcome(REGS@[1], reads[1]) is Ok);
    }
    if reads.len() > 3 {
        assert(is_read(REGS@[3], reads[3]));
        assert(read_outcome(REGS@[2], reads[2]) is Ok);
    }
}

/// Both releases are positive and strictly below press.
pub open spec fn is_safe(state: Seq<u16>) -> bool {
    &&& 0 < state[1] && state[1] < state[0]
    &&& 0 < state[2] && state[2] < state[0]
}

/// Hysteresis is that both releases are positive and strictly below press.
pub proof fn hysteresis_is_safety(state: Seq<u16>)
    ensures
        hysteresis(state) <==> is_safe(state),
{
}

/// A state is accepted exactly where both releases are positive and strictly below press; any
/// other is an invalid request, which names what is wrong with it.
pub proof fn only_safe_states_are_accepted(state: Seq<u16>)
    ensures
        state_check(state) is Ok <==> is_safe(state),
        state_check(state) matches Err(error) ==> {
            &&& error.kind == "invalid_request"@
            &&& error.exit_code == 2
            &&& error.message == (if state[1] >= state[0] || state[2] >= state[0] {
                "both release thresholds must be strictly below press threshold"@
            } else {
                "both release thresholds must be positive"@
            })
        },
{
}

/// Whether a threshold that may be asked for, or that is not asked for, lies between two bounds.
pub open spec fn lies_between(asked: Option<u16>, least: int, most: int) -> bool {
    asked matches Some(value) ==> least <= value <= most
}

/// Whether an update may be asked for: it names something, press from 120 to 192, release from 95
/// to 154, and drag release from 60 to 125.
pub open spec fn may_be_asked(update: Update) -> bool {
    let asked = update.thresholds@;
    &&& asked[0] is Some || asked[1] is Some || asked[2] is Some || update.haptics is Some
    &&& lies_between(asked[0], 120, 192)
    &&& lies_between(asked[1], 95, 154)
    &&& lies_between(asked[2], 60, 125)
}

/// An update is accepted exactly where it may be asked for. Any other is an invalid request.
pub proof fn only_updates_in_bounds_are_accepted(update: Update)
    ensures
        update_check(update) is Ok <==> may_be_asked(update),
        update_check(update) matches Err(error) ==> error.kind == "invalid_request"@
            && error.exit_code == 2,
{
    reveal_with_fuel(crate::elan::first_outside, 4);
}

/// What an update leads to: each threshold that it names takes the value that it names, each other
/// stays; bit 8 is set or cleared as it says, or stays, and every other control bit stays.
pub proof fn an_update_sets_what_it_names(update: Update, before: Seq<u16>)
    requires
        before.len() == 4,
    ensures
        ({
            let after = updated(update, before);
            &&& after.len() == 4
            &&& forall|i: int|
                0 <= i < 3 ==> #[trigger] after[i] == (match update.thresholds@[i] {
                    Some(value) => value,
                    None => before[i],
                })
            &&& bit_8(after[3]) == (match update.haptics {
                Some(on) => on,
                None => bit_8(before[3]),
            })
            &&& after[3] & 0xfeff == before[3] & 0xfeff
        }),
        updated(update, updated(update, before)) == updated(update, before),
{
    let control = before[3];
    assert(((control & !0x0100u16) | 0x0100u16) & 0x0100u16 != 0) by (bit_vector);
    assert(((control & !0x0100u16) | 0u16) & 0x0100u16 == 0) by (bit_vector);
    assert(((control & !0x0100u16) | 0x0100u16) & 0xfeffu16 == control & 0xfeffu16)
        by (bit_vector);
    assert(((control & !0x0100u16) | 0u16) & 0xfeffu16 == control & 0xfeffu16) by (bit_vector);
    assert((((control & !0x0100u16) | 0x0100u16) & !0x0100u16) | 0x0100u16 == ((control
        & !0x0100u16) | 0x0100u16)) by (bit_vector);
    assert((((control & !0x0100u16) | 0u16) & !0x0100u16) | 0u16 == ((control & !0x0100u16) | 0u16))
        by (bit_vector);
    assert(updated(update, updated(update, before)) =~= updated(update, before));
}

/// There is a state to reach exactly where the update may be asked for, the current state is safe,
/// and so is what the update leads to; and that is the state. A current state that is not safe is
/// unsupported; everything else that is refused is an invalid request.
pub proof fn a_safe_update_has_its_target(update: Update, before: Seq<u16>)
    requires
        before.len() == 4,
    ensures
        target_outcome(update, before) is Ok <==> may_be_asked(update) && is_safe(before)
            && is_safe(updated(update, before)),
        target_outcome(update, before) matches Ok(target) ==> target == updated(update, before),
        target_outcome(update, before) matches Err(error) ==> if may_be_asked(update)
            && !is_safe(before) {
            error.kind == "unsupported"@ && error.exit_code == 5
        } else {
            error.kind == "invalid_request"@ && error.exit_code == 2
        },
{
    only_updates_in_bounds_are_accepted(update);
    only_safe_states_are_accepted(before);
    only_safe_states_are_accepted(updated(update, before));
}

/// A higher press threshold within the bounds is never refused, whatever safe state the device is
/// in, and neither is switching feedback.
pub proof fn raising_press_is_never_refused(update: Update, before: Seq<u16>)
    requires
        before.len() == 4,
        is_safe(before),
        may_be_asked(update),
        update.thresholds@[0] matches Some(press) ==> press >= before[0],
        update.thresholds@[1] is None,
        update.thresholds@[2] is None,
    ensures
        target_outcome(update, before) is Ok,
{
    a_safe_update_has_its_target(update, before);
    an_update_sets_what_it_names(update, before);
    let after = updated(update, before);
    assert(after[0] >= before[0] && after[1] == before[1] && after[2] == before[2]);
}

/// The name by which a setting is reported.
pub open spec fn reported_name(index: int) -> Seq<char> {
    if index == 0 {
        "press_threshold"@
    } else if index == 1 {
        "release_threshold"@
    } else if index == 2 {
        "drag_release_threshold"@
    } else {
        "haptics"@
    }
}

/// Whether a change is that of one register from one state to another, by its name and both
/// values.
pub open spec fn tells_change(change: ChangeView, before: Seq<u16>, after: Seq<u16>) -> bool {
    &&& 0 <= change.index < 4
    &&& change.setting == reported_name(change.index)
    &&& change.before_raw == before[change.index]
    &&& change.after_raw == after[change.index]
    &&& change.before_raw != change.after_raw
}

/// A plan exists exactly between two safe states. It holds one change for each register that
/// differs, by its name and with its values in both states, and no other; carried out it leads from
/// the one state to the other, and every state in between is safe.
pub proof fn a_plan_tells_every_change(before: Seq<u16>, after: Seq<u16>)
    requires
        before.len() == 4,
        after.len() == 4,
    ensures
        plan_outcome(before, after) is Ok <==> is_safe(before) && is_safe(after),
        plan_outcome(before, after) matches Ok(changes) ==> {
            &&& changes == planned(before, after)
            &&& forall|at: int|
                0 <= at <= changes.len() ==> is_safe(
                    carried_out(before, #[trigger] changes.take(at)),
                )
        },
        forall|at: int|
            0 <= at < planned(before, after).len() ==> tells_change(
                #[trigger] planned(before, after)[at],
                before,
                after,
            ),
        forall|index: int|
            #![trigger before[index], after[index]]
            0 <= index < 4 && before[index] != after[index] ==> exists|at: int|
                0 <= at < planned(before, after).len() && (#[trigger] planned(
                    before,
                    after,
                )[at]).index == index,
        forall|i: int, j: int|
            0 <= i < j < planned(before, after).len() ==> (#[trigger] planned(
                before,
                after,
            )[i]).index != (#[trigger] planned(before, after)[j]).index,
        carried_out(before, planned(before, after)) == after,
        planned(before, after).len() == 0 <==> before == after,
{
    only_safe_states_are_accepted(before);
    only_safe_states_are_accepted(after);
    let changes = planned(before, after);
    plan_names_what_differs(before, after);
    plan_leads_to_target(before, after);
    assert forall|index: int|
        #![trigger before[index], after[index]]
        0 <= index < 4 && before[index] != after[index] implies exists|at: int|
        0 <= at < changes.len() && (#[trigger] changes[at]).index == index by {
        let change = crate::plan::change_of(index, before, after);
        assert(changes.contains(change));
        let at = choose|at: int| 0 <= at < changes.len() && changes[at] == change;
        assert(changes[at].index == index);
    }
    if is_safe(before) && is_safe(after) {
        assert forall|at: int| 0 <= at <= changes.len() implies is_safe(
            carried_out(before, #[trigger] changes.take(at)),
        ) by {
            plan_keeps_hysteresis(before, after, at);
        }
    }
    if changes.len() == 0 {
        assert(changes =~= seq![]);
    } else {
        assert(tells_change(changes[0], before, after));
    }
}

/// Press changes before the releases where it rises and after them where it falls. The control bits
/// change first where bit 8 is to be clear, and last where it is to be set.
pub proof fn changes_come_in_a_safe_order(before: Seq<u16>, after: Seq<u16>, i: int, j: int)
    requires
        before.len() == 4,
        after.len() == 4,
        0 <= i < planned(before, after).len(),
        0 <= j < planned(before, after).len(),
    ensures
        planned(before, after)[i].index == 0 && 1 <= planned(before, after)[j].index <= 2 ==> (i < j
            <==> after[0] > before[0]),
        planned(before, after)[i].index == 3 ==> if bit_8(after[3]) {
            i == planned(before, after).len() - 1
        } else {
            i == 0
        },
{
    plan_is_in_order(before, after);
}

/// Carrying out changes sets their registers one after the other, and no other register.
pub proof fn changes_set_their_registers(
    start: Seq<u16>,
    changes: Seq<ChangeView>,
    change: ChangeView,
)
    ensures
        carried_out(start, Seq::<ChangeView>::empty()) == start,
        carried_out(start, changes.push(change)) == carried_out(start, changes).update(
            change.index,
            change.after_raw,
        ),
{
    assert(changes.push(change).drop_last() =~= changes);
}

/// The way back from a state is a plan to the state of before: carried out, it undoes the plan.
pub proof fn a_plan_is_undone_by_the_plan_back(before: Seq<u16>, after: Seq<u16>)
    requires
        before.len() == 4,
        after.len() == 4,
    ensures
        carried_out(carried_out(before, planned(before, after)), planned(after, before)) == before,
{
    plan_leads_to_target(before, after);
    plan_leads_to_target(after, before);
}

} // verus!
