//! The order in which settings change.
//!
//! A device takes one register at a time, so every state in between is real. Raising the press
//! threshold first and lowering it last keeps both release thresholds below it all the way.
use vstd::prelude::*;

use crate::elan::{
    change_views, feedback, hysteresis, name, setting_name, state_check, Change, ChangeView, State,
    HAPTICS,
};
use crate::error::{Error, ErrorView};

verus! {

/// The order in which registers change: feedback is disabled first or enabled last, and the press
/// threshold goes before the releases where it rises, and after them where it does not.
pub open spec fn order(before: Seq<u16>, after: Seq<u16>) -> Seq<int> {
    let thresholds = if after[0] > before[0] {
        seq![0int, 1, 2]
    } else {
        seq![1int, 2, 0]
    };
    if feedback(after[3]) {
        thresholds.push(3)
    } else {
        seq![3int] + thresholds
    }
}

/// The change of one register.
pub open spec fn change_of(index: int, before: Seq<u16>, after: Seq<u16>) -> ChangeView {
    ChangeView {
        setting: name(index),
        before_raw: before[index],
        after_raw: after[index],
        index,
    }
}

/// The changes of those registers that differ, in the given order.
pub open spec fn changes_along(order: Seq<int>, before: Seq<u16>, after: Seq<u16>) -> Seq<ChangeView>
    decreases order.len(),
{
    if order.len() == 0 {
        seq![]
    } else {
        let earlier = changes_along(order.drop_last(), before, after);
        let index = order.last();
        if before[index] == after[index] {
            earlier
        } else {
            earlier.push(change_of(index, before, after))
        }
    }
}

/// The changes that lead from one state to another.
pub open spec fn planned(before: Seq<u16>, after: Seq<u16>) -> Seq<ChangeView> {
    changes_along(order(before, after), before, after)
}

/// The plan, or why there is none: both ends must keep hysteresis.
pub open spec fn plan_outcome(before: Seq<u16>, after: Seq<u16>) -> Result<
    Seq<ChangeView>,
    ErrorView,
> {
    match state_check(before) {
        Err(error) => Err(error),
        Ok(()) => match state_check(after) {
            Err(error) => Err(error),
            Ok(()) => Ok(planned(before, after)),
        },
    }
}

/// A plan that was made, or the failure to make it.
pub open spec fn changes_outcome(changes: Result<Vec<Change>, Error>) -> Result<
    Seq<ChangeView>,
    ErrorView,
> {
    match changes {
        Ok(changes) => Ok(change_views(changes@)),
        Err(error) => Err(error@),
    }
}

/// Finds the changes that lead from one state to another, in a safe order. What does not differ
/// is left out.
pub fn plan(before: State, after: State) -> (changes: Result<Vec<Change>, Error>)
    ensures
        changes_outcome(changes) == plan_outcome(before@, after@),
        changes matches Ok(changes) ==> forall|i: int|
            0 <= i < changes@.len() ==> (#[trigger] changes@[i]).index < 4,
{
    match before.validate() {
        Ok(()) => {},
        Err(error) => {
            return Err(error);
        },
    }
    match after.validate() {
        Ok(()) => {},
        Err(error) => {
            return Err(error);
        },
    }
    let rises = after.0[0] > before.0[0];
    let enabled = after.0[3] & HAPTICS != 0;
    let sequence: [usize; 4] = if enabled {
        if rises {
            [0, 1, 2, 3]
        } else {
            [1, 2, 0, 3]
        }
    } else {
        if rises {
            [3, 0, 1, 2]
        } else {
            [3, 1, 2, 0]
        }
    };
    let ghost indices = order(before@, after@);
    assert(sequence@.map_values(|i: usize| i as int) =~= indices);
    let mut changes: Vec<Change> = Vec::new();
    let mut i: usize = 0;
    assert(change_views(changes@) =~= changes_along(indices.take(0), before@, after@));
    while i < 4
        invariant
            i <= 4,
            indices == sequence@.map_values(|i: usize| i as int),
            forall|k: int| 0 <= k < 4 ==> #[trigger] sequence@[k] < 4,
            change_views(changes@) == changes_along(indices.take(i as int), before@, after@),
            forall|k: int| 0 <= k < changes@.len() ==> (#[trigger] changes@[k]).index < 4,
        decreases 4 - i,
    {
        let index = sequence[i];
        let ghost earlier = changes@;
        assert(indices.take(i + 1).drop_last() =~= indices.take(i as int));
        if before.0[index] != after.0[index] {
            changes.push(
                Change {
                    setting: setting_name(index),
                    before_raw: before.0[index],
                    after_raw: after.0[index],
                    index,
                },
            );
            assert(change_views(changes@) =~= change_views(earlier).push(
                change_of(index as int, before@, after@),
            ));
        }
        i = i + 1;
    }
    assert(indices.take(4) =~= indices);
    Ok(changes)
}

/// The state after a list of changes was carried out.
pub open spec fn carried_out(start: Seq<u16>, changes: Seq<ChangeView>) -> Seq<u16>
    decreases changes.len(),
{
    if changes.len() == 0 {
        start
    } else {
        carried_out(start, changes.drop_last()).update(
            changes.last().index,
            changes.last().after_raw,
        )
    }
}

/// A state of which some registers were taken from another.
spec fn mixed(before: Seq<u16>, after: Seq<u16>, done: Seq<int>) -> Seq<u16> {
    Seq::new(
        4,
        |i: int|
            if done.contains(i) {
                after[i]
            } else {
                before[i]
            },
    )
}

spec fn within(indices: Seq<int>) -> bool {
    forall|i: int| 0 <= i < indices.len() ==> 0 <= #[trigger] indices[i] < 4
}

proof fn changes_mix(indices: Seq<int>, before: Seq<u16>, after: Seq<u16>)
    requires
        before.len() == 4,
        after.len() == 4,
        within(indices),
    ensures
        carried_out(before, changes_along(indices, before, after)) == mixed(before, after, indices),
    decreases indices.len(),
{
    let changes = changes_along(indices, before, after);
    if indices.len() == 0 {
        assert(mixed(before, after, indices) =~= before);
    } else {
        let earlier = indices.drop_last();
        let index = indices.last();
        changes_mix(earlier, before, after);
        assert forall|i: int| indices.contains(i) <==> (earlier.contains(i) || i == index) by {
            if indices.contains(i) && i != index {
                let k = choose|k: int| 0 <= k < indices.len() && indices[k] == i;
                assert(earlier[k] == i);
            }
            if earlier.contains(i) {
                let k = choose|k: int| 0 <= k < earlier.len() && earlier[k] == i;
                assert(indices[k] == i);
            }
            if i == index {
                assert(indices[indices.len() - 1] == i);
            }
        }
        if before[index] == after[index] {
            assert(mixed(before, after, indices) =~= mixed(before, after, earlier));
        } else {
            assert(changes.drop_last() =~= changes_along(earlier, before, after));
            assert(mixed(before, after, indices) =~= mixed(before, after, earlier).update(
                index,
                after[index],
            ));
        }
    }
}

/// A beginning of a plan is what a beginning of its order gives.
proof fn beginning_of_plan(
    indices: Seq<int>,
    before: Seq<u16>,
    after: Seq<u16>,
    count: int,
) -> (len: int)
    requires
        0 <= count <= changes_along(indices, before, after).len(),
    ensures
        0 <= len <= indices.len(),
        changes_along(indices, before, after).take(count) == changes_along(
            indices.take(len),
            before,
            after,
        ),
    decreases indices.len(),
{
    let changes = changes_along(indices, before, after);
    if count == changes.len() {
        assert(changes.take(count) =~= changes);
        assert(indices.take(indices.len() as int) =~= indices);
        indices.len() as int
    } else {
        let earlier = indices.drop_last();
        let len = beginning_of_plan(earlier, before, after, count);
        assert(earlier.take(len) =~= indices.take(len));
        assert(changes.take(count) =~= changes_along(earlier, before, after).take(count));
        len
    }
}

proof fn order_within(before: Seq<u16>, after: Seq<u16>)
    ensures
        order(before, after).len() == 4,
        within(order(before, after)),
{
}

/// Every change of a plan is that of a register that differs.
proof fn changes_differ(indices: Seq<int>, before: Seq<u16>, after: Seq<u16>, at: int)
    requires
        within(indices),
        0 <= at < changes_along(indices, before, after).len(),
    ensures
        ({
            let change = changes_along(indices, before, after)[at];
            &&& 0 <= change.index < 4
            &&& change == change_of(change.index, before, after)
            &&& before[change.index] != after[change.index]
        }),
    decreases indices.len(),
{
    if indices.len() > 0 {
        let earlier = indices.drop_last();
        if at < changes_along(earlier, before, after).len() {
            changes_differ(earlier, before, after, at);
        }
    }
}

/// A plan carried out to its end leads to the state that it was made for.
pub proof fn plan_leads_to_target(before: Seq<u16>, after: Seq<u16>)
    requires
        before.len() == 4,
        after.len() == 4,
    ensures
        carried_out(before, planned(before, after)) == after,
{
    order_within(before, after);
    let indices = order(before, after);
    changes_mix(indices, before, after);
    assert forall|i: int| 0 <= i < 4 implies indices.contains(i) by {
        assert(indices[0] == i || indices[1] == i || indices[2] == i || indices[3] == i);
    }
    assert(mixed(before, after, indices) =~= after);
}

/// Hysteresis holds in every state on the way from one valid state to another.
pub proof fn plan_keeps_hysteresis(before: Seq<u16>, after: Seq<u16>, count: int)
    requires
        before.len() == 4,
        after.len() == 4,
        hysteresis(before),
        hysteresis(after),
        0 <= count <= planned(before, after).len(),
    ensures
        hysteresis(carried_out(before, planned(before, after).take(count))),
{
    order_within(before, after);
    let indices = order(before, after);
    let len = beginning_of_plan(indices, before, after, count);
    let done = indices.take(len);
    changes_mix(done, before, after);
    assert(after[0] > before[0] && (done.contains(1) || done.contains(2)) ==> done.contains(0)) by {
        if done.contains(1) || done.contains(2) {
            let at = choose|k: int| 0 <= k < done.len() && (done[k] == 1 || done[k] == 2);
            if after[0] > before[0] {
                if feedback(after[3]) {
                    assert(done[0] == 0);
                } else {
                    assert(done[1] == 0);
                }
            }
        }
    }
    assert(after[0] <= before[0] && done.contains(0) ==> done.contains(1) && done.contains(2)) by {
        if after[0] <= before[0] && done.contains(0) {
            let at = choose|k: int| 0 <= k < done.len() && done[k] == 0;
            if feedback(after[3]) {
                assert(done[0] == 1 && done[1] == 2);
            } else {
                assert(done[1] == 1 && done[2] == 2);
            }
        }
    }
}

/// A plan names each register that differs exactly once, with the values it has at both ends, and
/// no register that does not differ.
pub proof fn plan_names_what_differs(before: Seq<u16>, after: Seq<u16>)
    requires
        before.len() == 4,
        after.len() == 4,
    ensures
        forall|at: int|
            0 <= at < planned(before, after).len() ==> {
                let change = #[trigger] planned(before, after)[at];
                &&& 0 <= change.index < 4
                &&& change == change_of(change.index, before, after)
                &&& before[change.index] != after[change.index]
            },
        forall|index: int|
            0 <= index < 4 && before[index] != after[index] ==> planned(before, after).contains(
                #[trigger] change_of(index, before, after),
            ),
        forall|i: int, j: int|
            0 <= i < j < planned(before, after).len() ==> (#[trigger] planned(before, after)[i]).index
                != (#[trigger] planned(before, after)[j]).index,
{
    order_within(before, after);
    let indices = order(before, after);
    assert forall|at: int| 0 <= at < planned(before, after).len() implies {
        let change = #[trigger] planned(before, after)[at];
        &&& 0 <= change.index < 4
        &&& change == change_of(change.index, before, after)
        &&& before[change.index] != after[change.index]
    } by {
        changes_differ(indices, before, after, at);
    }
    plan_contains(indices, before, after);
    assert forall|index: int| 0 <= index < 4 && before[index] != after[index] implies planned(
        before,
        after,
    ).contains(#[trigger] change_of(index, before, after)) by {
        assert(indices[0] == index || indices[1] == index || indices[2] == index || indices[3]
            == index);
        let k = choose|k: int| 0 <= k < 4 && indices[k] == index;
        assert(changes_along(indices, before, after).contains(change_of(indices[k], before, after)));
    }
    plan_is_distinct(indices, before, after);
}

proof fn plan_contains(indices: Seq<int>, before: Seq<u16>, after: Seq<u16>)
    ensures
        forall|k: int|
            0 <= k < indices.len() && before[#[trigger] indices[k]] != after[indices[k]]
                ==> changes_along(indices, before, after).contains(
                change_of(indices[k], before, after),
            ),
    decreases indices.len(),
{
    if indices.len() > 0 {
        let earlier = indices.drop_last();
        plan_contains(earlier, before, after);
        let changes = changes_along(indices, before, after);
        let fewer = changes_along(earlier, before, after);
        assert forall|k: int|
            0 <= k < indices.len() && before[#[trigger] indices[k]] != after[indices[k]] implies changes.contains(
            change_of(indices[k], before, after),
        ) by {
            if k < earlier.len() {
                assert(earlier[k] == indices[k]);
                let at = choose|at: int|
                    0 <= at < fewer.len() && fewer[at] == change_of(indices[k], before, after);
                assert(changes[at] == fewer[at]);
            } else {
                assert(changes.last() == change_of(indices[k], before, after));
            }
        }
    }
}

proof fn plan_is_distinct(indices: Seq<int>, before: Seq<u16>, after: Seq<u16>)
    requires
        indices.no_duplicates(),
    ensures
        forall|i: int, j: int|
            0 <= i < j < changes_along(indices, before, after).len() ==> (
            #[trigger] changes_along(indices, before, after)[i]).index != (
            #[trigger] changes_along(indices, before, after)[j]).index,
        forall|i: int|
            0 <= i < changes_along(indices, before, after).len() ==> indices.contains(
                (#[trigger] changes_along(indices, before, after)[i]).index,
            ),
    decreases indices.len(),
{
    if indices.len() > 0 {
        let earlier = indices.drop_last();
        plan_is_distinct(earlier, before, after);
        let changes = changes_along(indices, before, after);
        let fewer = changes_along(earlier, before, after);
        assert(forall|i: int| 0 <= i < fewer.len() ==> changes[i] == #[trigger] fewer[i]);
        assert forall|i: int| 0 <= i < changes.len() implies indices.contains(
            (#[trigger] changes[i]).index,
        ) by {
            if i < fewer.len() {
                let k = choose|k: int| 0 <= k < earlier.len() && earlier[k] == fewer[i].index;
                assert(indices[k] == changes[i].index);
            } else {
                assert(indices[indices.len() - 1] == changes[i].index);
            }
        }
        assert forall|i: int, j: int| 0 <= i < j < changes.len() implies (
        #[trigger] changes[i]).index != (#[trigger] changes[j]).index by {
            if j == fewer.len() {
                let k = choose|k: int| 0 <= k < earlier.len() && earlier[k] == fewer[i].index;
                assert(indices[k] == changes[i].index);
                assert(indices[indices.len() - 1] == changes[j].index);
            }
        }
    }
}

/// Two changes of a plan come in the order of their registers.
proof fn changes_follow_order(
    indices: Seq<int>,
    before: Seq<u16>,
    after: Seq<u16>,
    i: int,
    j: int,
) -> (places: (int, int))
    requires
        0 <= i < j < changes_along(indices, before, after).len(),
    ensures
        0 <= places.0 < places.1 < indices.len(),
        indices[places.0] == changes_along(indices, before, after)[i].index,
        indices[places.1] == changes_along(indices, before, after)[j].index,
    decreases indices.len(),
{
    let earlier = indices.drop_last();
    let fewer = changes_along(earlier, before, after);
    if j < fewer.len() {
        changes_follow_order(earlier, before, after, i, j)
    } else {
        (place_of_change(earlier, before, after, i), indices.len() - 1)
    }
}

proof fn place_of_change(
    indices: Seq<int>,
    before: Seq<u16>,
    after: Seq<u16>,
    i: int,
) -> (place: int)
    requires
        0 <= i < changes_along(indices, before, after).len(),
    ensures
        0 <= place < indices.len(),
        indices[place] == changes_along(indices, before, after)[i].index,
    decreases indices.len(),
{
    let earlier = indices.drop_last();
    if i < changes_along(earlier, before, after).len() {
        place_of_change(earlier, before, after, i)
    } else {
        indices.len() - 1
    }
}

/// Where the press threshold rises, it changes before the releases; where it falls, after them.
/// The control bits change first where feedback is to be off, and last where it is to be on.
pub proof fn plan_is_in_order(before: Seq<u16>, after: Seq<u16>)
    requires
        before.len() == 4,
        after.len() == 4,
    ensures
        forall|i: int, j: int|
            0 <= i < planned(before, after).len() && 0 <= j < planned(before, after).len() && (
            #[trigger] planned(before, after)[i]).index == 0 && 1 <= (#[trigger] planned(
                before,
                after,
            )[j]).index <= 2 ==> (i < j <==> after[0] > before[0]),
        forall|i: int|
            0 <= i < planned(before, after).len() && (#[trigger] planned(before, after)[i]).index
                == 3 ==> i == (if feedback(after[3]) {
                planned(before, after).len() - 1
            } else {
                0
            }),
{
    let indices = order(before, after);
    let changes = planned(before, after);
    assert forall|i: int, j: int|
        0 <= i < changes.len() && 0 <= j < changes.len() && (#[trigger] changes[i]).index == 0 && 1
            <= (#[trigger] changes[j]).index <= 2 implies (i < j <==> after[0] > before[0]) by {
        if i < j {
            let (a, b) = changes_follow_order(indices, before, after, i, j);
        } else {
            let (b, a) = changes_follow_order(indices, before, after, j, i);
        }
    }
    assert forall|i: int| 0 <= i < changes.len() && (#[trigger] changes[i]).index == 3 implies i
        == (if feedback(after[3]) {
        changes.len() - 1
    } else {
        0
    }) by {
        if feedback(after[3]) && i < changes.len() - 1 {
            let (a, b) = changes_follow_order(indices, before, after, i, changes.len() - 1);
        }
        if !feedback(after[3]) && i > 0 {
            let (a, b) = changes_follow_order(indices, before, after, 0, i);
        }
    }
}

} // verus!
