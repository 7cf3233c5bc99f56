//! What holds of every update, whatever the device does.
use vstd::prelude::*;

use crate::elan::{is_snapshot, shown_settings, snapshot_outcome, updated, ChangeView, Update, REGS};
use crate::error::ErrorView;
use crate::plan::{carried_out, planned};
use crate::protocol::{is_write, joined, write_outcome, Exchange};
use crate::settings_laws::{
    a_plan_tells_every_change, a_safe_update_has_its_target, a_state_is_what_was_read,
    an_update_sets_what_it_names, is_safe, may_be_asked, only_updates_in_bounds_are_accepted,
    settings_are_what_registers_hold, tells_change,
};
use crate::update::{
    applied, one_step_log, steps_log, touched, written_in_turn, ReportView, RollbackView, Run, Step,
};

verus! {

/// Whether a step looked at the device and found this, reading the whole state.
pub open spec fn found(step: Step, state: Result<Seq<u16>, ErrorView>) -> bool {
    step matches Step::Look { reads } && is_snapshot(reads) && snapshot_outcome(reads) == state
}

/// Whether a step wrote a value to the register of a setting, and this came of it.
pub open spec fn wrote(step: Step, index: int, value: u16, outcome: Result<(), ErrorView>) -> bool {
    step matches Step::Put { index: at, value: written, log } && {
        &&& at == index
        &&& written == value
        &&& 0 <= index < 4
        &&& is_write(REGS@[index], value, log)
        &&& write_outcome(REGS@[index], value, log) == outcome
    }
}

/// The state that an update found at first.
pub open spec fn first_state(run: Run) -> Seq<u16> {
    snapshot_outcome(run.opening[0]->reads)->Ok_0
}

proof fn found_first(update: Update, dry_run: bool, run: Run, report: ReportView)
    requires
        applied(update, dry_run, run, Ok(report)),
    ensures
        run.opening.len() == 1,
        found(run.opening[0], Ok(first_state(run))),
        first_state(run).len() == 4,
        may_be_asked(update),
        is_safe(first_state(run)),
        is_safe(updated(update, first_state(run))),
        updated(update, first_state(run)).len() == 4,
        crate::update::carried_through(
            first_state(run),
            updated(update, first_state(run)),
            dry_run,
            run,
            report,
        ),
{
    only_updates_in_bounds_are_accepted(update);
    let reads = run.opening[0]->reads;
    a_state_is_what_was_read(reads);
    a_safe_update_has_its_target(update, first_state(run));
    an_update_sets_what_it_names(update, first_state(run));
}

/// An update is carried out exactly where it may be asked for, the whole state of the device can be
/// read, that state is safe, and so is what the update leads to. What may not be asked for is
/// refused before anything is sent; what is refused after that has sent nothing but the one look
/// at the state, and a look that failed is the failure of the update.
pub proof fn an_update_is_refused_before_it_writes(
    update: Update,
    dry_run: bool,
    run: Run,
    result: Result<ReportView, ErrorView>,
)
    requires
        applied(update, dry_run, run, result),
    ensures
        result is Ok <==> may_be_asked(update) && run.opening.len() == 1 && (
        run.opening[0] matches Step::Look { reads } && (snapshot_outcome(reads) matches Ok(before)
            && is_safe(before) && is_safe(updated(update, before)))),
        result matches Err(error) ==> if !may_be_asked(update) {
            &&& error.kind == "invalid_request"@
            &&& error.exit_code == 2
            &&& run.log() == Seq::<Exchange>::empty()
        } else {
            &&& run.opening[0] matches Step::Look { reads } && is_snapshot(reads) && run.log()
                == joined(reads) && match snapshot_outcome(reads) {
                Err(unread) => error == unread,
                Ok(before) => if is_safe(before) {
                    error.kind == "invalid_request"@ && error.exit_code == 2
                } else {
                    error.kind == "unsupported"@ && error.exit_code == 5
                },
            }
        },
{
    only_updates_in_bounds_are_accepted(update);
    if may_be_asked(update) {
        let step = run.opening[0];
        let reads = step->reads;
        a_state_is_what_was_read(reads);
        if let Ok(before) = snapshot_outcome(reads) {
            a_safe_update_has_its_target(update, before);
        }
        if result is Err {
            assert(run.steps()[0] == step);
            assert(run.steps() =~= seq![step]);
            one_step_log(step);
        }
    } else {
        assert(run.steps() =~= seq![]);
    }
}

/// A report names the settings of before as they were seen at first. As requested it names each
/// threshold that was asked for with the value that was asked for, and each other one as it was
/// before; feedback as it was asked for, or as it was before.
pub proof fn a_report_names_what_was_requested(
    update: Update,
    dry_run: bool,
    run: Run,
    report: ReportView,
)
    requires
        applied(update, dry_run, run, Ok(report)),
    ensures
        found(run.opening[0], Ok(first_state(run))),
        report.before == shown_settings(first_state(run)),
        report.requested == shown_settings(updated(update, first_state(run))),
        report.requested.press_threshold == (match update.thresholds@[0] {
            Some(value) => value,
            None => report.before.press_threshold,
        }),
        report.requested.release_threshold == (match update.thresholds@[1] {
            Some(value) => value,
            None => report.before.release_threshold,
        }),
        report.requested.drag_release_threshold == (match update.thresholds@[2] {
            Some(value) => value,
            None => report.before.drag_release_threshold,
        }),
        report.requested.haptics == (match update.haptics {
            Some(on) => on,
            None => report.before.haptics,
        }),
{
    found_first(update, dry_run, run, report);
    let before = first_state(run);
    let after = updated(update, before);
    an_update_sets_what_it_names(update, before);
    settings_are_what_registers_hold(before, 0);
    settings_are_what_registers_hold(after, 0);
    assert(after[0] == after[0] && after[1] == after[1] && after[2] == after[2]);
}

/// The settings that a report names last are those of the last look at the device, which read the
/// whole state; where that look failed, it names none. Nothing is sent after that look.
pub proof fn a_report_ends_with_the_last_look(
    update: Update,
    dry_run: bool,
    run: Run,
    report: ReportView,
)
    requires
        applied(update, dry_run, run, Ok(report)),
    ensures
        run.steps().len() > 0,
        run.steps().last() matches Step::Look { reads } && {
            &&& is_snapshot(reads)
            &&& report.observed_after == (match snapshot_outcome(reads) {
                Ok(state) => Some(shown_settings(state)),
                Err(_) => None,
            })
            &&& run.log() == steps_log(run.steps().drop_last()) + joined(reads)
        },
{
    found_first(update, dry_run, run, report);
    let before = first_state(run);
    let target = updated(update, before);
    let steps = run.steps();
    if dry_run || planned(before, target).len() == 0 {
        assert(steps =~= run.opening);
    } else if report.error is None {
        assert(run.advance.closing.len() == 1);
        assert(steps.last() == run.advance.closing[0]);
    } else if report.attempted.len() == 0 {
        assert(run.recovery.steps()[0] == run.recovery.assessment[0]);
        assert(steps.last() == run.recovery.assessment[0]);
    } else {
        assert(steps.last() == run.recovery.verdict[0]);
    }
}

/// The status of a report. A dry run says so. Where the state of before is the requested one,
/// nothing is changed. Otherwise the update is done or has failed, and it is done only where every
/// planned change was written and read back and the last look at the device, of the whole state,
/// found exactly the requested state in all four registers.
pub proof fn a_report_has_its_status(update: Update, dry_run: bool, run: Run, report: ReportView)
    requires
        applied(update, dry_run, run, Ok(report)),
    ensures
        ({
            let before = first_state(run);
            let target = updated(update, before);
            if dry_run {
                &&& report.status == "dry_run"@
                &&& report.error is None
                &&& report.rollback is None
                &&& report.attempted.len() == 0 && report.verified.len() == 0
                &&& run.steps() == run.opening
            } else if before == target {
                &&& report.status == "unchanged"@
                &&& report.error is None
                &&& report.rollback is None
                &&& report.attempted.len() == 0 && report.verified.len() == 0
                &&& run.steps() == run.opening
            } else if report.error is Some {
                report.status == "failed"@
            } else {
                &&& report.status == "applied"@
                &&& report.rollback is None
                &&& report.attempted == report.planned
                &&& report.verified == report.planned
                &&& found(run.steps().last(), Ok(target))
                &&& report.observed_after == Some(shown_settings(target))
            }
        }),
{
    found_first(update, dry_run, run, report);
    let before = first_state(run);
    let target = updated(update, before);
    a_plan_tells_every_change(before, target);
    let steps = run.steps();
    if dry_run || planned(before, target).len() == 0 {
        assert(steps =~= run.opening);
    } else if report.error is None {
        assert(run.advance.closing.len() == 1);
        assert(steps.last() == run.advance.closing[0]);
        let changes = planned(before, target);
        assert(changes.take(changes.len() as int) =~= changes);
    }
}

/// A report plans one change for each register in which the requested state differs from that of
/// before, by its name and with both values, and no other.
pub proof fn a_report_plans_every_change(
    update: Update,
    dry_run: bool,
    run: Run,
    report: ReportView,
)
    requires
        applied(update, dry_run, run, Ok(report)),
    ensures
        ({
            let before = first_state(run);
            let target = updated(update, before);
            &&& report.planned == planned(before, target)
            &&& forall|at: int|
                0 <= at < report.planned.len() ==> tells_change(
                    #[trigger] report.planned[at],
                    before,
                    target,
                )
            &&& forall|index: int|
                #![trigger before[index], target[index]]
                0 <= index < 4 && before[index] != target[index] ==> exists|at: int|
                    0 <= at < report.planned.len() && (#[trigger] report.planned[at]).index == index
        }),
{
    found_first(update, dry_run, run, report);
    a_plan_tells_every_change(first_state(run), updated(update, first_state(run)));
}

/// Whether writes went out in turn: before each one the whole state was looked at and found as the
/// writes before it must have left it, and each but the last succeeded. `attempted` are the changes
/// that were written, `verified` those that were read back.
pub open spec fn in_turn(
    start: Seq<u16>,
    changes: Seq<ChangeView>,
    steps: Seq<Step>,
    attempted: Seq<ChangeView>,
    verified: Seq<ChangeView>,
) -> bool {
    &&& verified.len() <= attempted.len() <= changes.len()
    &&& attempted.len() <= verified.len() + 1
    &&& forall|i: int|
        0 <= i < attempted.len() ==> #[trigger] attempted[i] == changes[i] && found(
            steps[2 * i],
            Ok(carried_out(start, changes.take(i))),
        )
    &&& forall|i: int|
        0 <= i < verified.len() ==> #[trigger] verified[i] == changes[i] && wrote(
            steps[2 * i + 1],
            changes[i].index,
            changes[i].after_raw,
            Ok(()),
        )
}

/// Why writes ended before their time: the look before the next one failed, or found another state,
/// or the write itself failed.
pub open spec fn ended(
    start: Seq<u16>,
    changes: Seq<ChangeView>,
    steps: Seq<Step>,
    attempted: Seq<ChangeView>,
    verified: Seq<ChangeView>,
    error: ErrorView,
    diverged: ErrorView,
) -> bool {
    let next = verified.len() as int;
    &&& next < changes.len()
    &&& if attempted.len() == next {
        &&& steps.len() == 2 * next + 1
        &&& {
            ||| found(steps[2 * next], Err(error))
            ||| exists|state: Seq<u16>| #[trigger]
                found(steps[2 * next], Ok(state)) && state != carried_out(
                    start,
                    changes.take(next),
                ) && error == diverged
        }
    } else {
        &&& steps.len() == 2 * next + 2
        &&& wrote(
            steps[2 * next + 1],
            changes[next].index,
            changes[next].after_raw,
            Err(error),
        )
    }
}

proof fn turns_are_taken(
    start: Seq<u16>,
    changes: Seq<ChangeView>,
    steps: Seq<Step>,
    diverged: ErrorView,
    attempted: Seq<ChangeView>,
    verified: Seq<ChangeView>,
    failure: Option<ErrorView>,
)
    requires
        attempted.len() <= changes.len(),
        attempted == changes.take(attempted.len() as int),
        verified.len() <= changes.len(),
        verified == changes.take(verified.len() as int),
        written_in_turn(
            start,
            changes,
            steps,
            diverged,
            attempted.len() as int,
            verified.len() as int,
            failure,
        ),
    ensures
        in_turn(start, changes, steps, attempted, verified),
        failure is None ==> steps.len() == 2 * changes.len() && verified.len() == changes.len(),
        failure matches Some(error) ==> ended(
            start,
            changes,
            steps,
            attempted,
            verified,
            error,
            diverged,
        ),
{
    assert forall|i: int| 0 <= i < verified.len() implies #[trigger] verified[i] == changes[i]
        && wrote(steps[2 * i + 1], changes[i].index, changes[i].after_raw, Ok(())) by {
        assert(crate::update::made(start, changes, steps, i));
    }
    assert forall|i: int| 0 <= i < attempted.len() implies #[trigger] attempted[i] == changes[i]
        && found(steps[2 * i], Ok(carried_out(start, changes.take(i)))) by {
        if i < verified.len() {
            assert(crate::update::made(start, changes, steps, i));
        }
    }
    if let Some(error) = failure {
        let next = verified.len() as int;
        let look = steps[2 * next];
        if attempted.len() == next {
            match look.seen() {
                Ok(state) => {
                    assert(found(look, Ok(state)));
                },
                Err(_) => {},
            }
        }
    }
}

/// The changes of an update are written in turn, each after a look that found the whole state as
/// expected, and read back. It fails exactly where a look fails or finds another state, a write
/// fails, or the look at the end fails or does not find the requested state; the failure that is
/// reported is that one. A state that others changed meanwhile is a concurrent change, and one that
/// is not the requested one at the end is a failed verification.
pub proof fn an_update_stops_at_the_first_failure(update: Update, run: Run, report: ReportView)
    requires
        applied(update, false, run, Ok(report)),
        first_state(run) != updated(update, first_state(run)),
    ensures
        ({
            let before = first_state(run);
            let target = updated(update, before);
            let changes = planned(before, target);
            &&& in_turn(before, changes, run.advance.forward, report.attempted, report.verified)
            &&& match report.error {
                None => {
                    &&& report.verified.len() == changes.len()
                    &&& run.advance.forward.len() == 2 * changes.len()
                    &&& run.advance.closing.len() == 1
                    &&& found(run.advance.closing[0], Ok(target))
                },
                Some(error) => {
                    ||| run.advance.closing.len() == 0 && ended(
                        before,
                        changes,
                        run.advance.forward,
                        report.attempted,
                        report.verified,
                        error,
                        ErrorView {
                            kind: "concurrent_change"@,
                            message: "settings changed outside this process; stopping"@,
                            exit_code: 1,
                        },
                    )
                    ||| report.verified.len() == changes.len() && run.advance.closing.len() == 1
                        && found(run.advance.closing[0], Err(error))
                    ||| report.verified.len() == changes.len() && run.advance.closing.len() == 1
                        && error.kind == "verification"@ && error.exit_code == 1 && error.message
                        == "final settings differ from requested settings"@ && exists|
                        state: Seq<u16>,
                    | #[trigger]
                        found(run.advance.closing[0], Ok(state)) && state != target
                },
            }
        }),
{
    found_first(update, false, run, report);
    let before = first_state(run);
    let target = updated(update, before);
    let changes = planned(before, target);
    a_plan_tells_every_change(before, target);
    let diverged = ErrorView {
        kind: "concurrent_change"@,
        message: "settings changed outside this process; stopping"@,
        exit_code: 1,
    };
    turns_are_taken(
        before,
        changes,
        run.advance.forward,
        diverged,
        report.attempted,
        report.verified,
        run.advance.stopped,
    );
    if run.advance.stopped is None {
        let look = run.advance.closing[0];
        match look.seen() {
            Ok(state) => {
                assert(found(look, Ok(state)));
            },
            Err(_) => {},
        }
    }
}

/// Whether a state may be led back to that of before: it is safe, it differs from that of before in
/// nothing that was not written, and of the control bits in bit 8 at most.
pub open spec fn may_be_led_back(
    before: Seq<u16>,
    current: Seq<u16>,
    attempted: Seq<ChangeView>,
) -> bool {
    &&& is_safe(current)
    &&& forall|i: int|
        0 <= i < 4 && #[trigger] current[i] != before[i] ==> exists|k: int|
            0 <= k < attempted.len() && (#[trigger] attempted[k]).index == i
    &&& current[3] & 0xfeff == before[3] & 0xfeff
}

/// A failed update that has written something is rolled back, and no other. The state is looked at
/// first. Where that fails, or the state may not be led back, nothing is written and the rollback
/// reports why. Otherwise the changes that lead from it to the state of before are written in turn,
/// up to the first failure, which the rollback reports.
pub proof fn a_failed_update_is_rolled_back(update: Update, run: Run, report: ReportView)
    requires
        applied(update, false, run, Ok(report)),
        first_state(run) != updated(update, first_state(run)),
    ensures
        report.rollback is Some <==> report.error is Some && report.attempted.len() > 0,
        report.rollback matches Some(rollback) ==> {
            let before = first_state(run);
            let reads = run.recovery.assessment[0]->reads;
            &&& run.recovery.assessment.len() == 1
            &&& found(run.recovery.assessment[0], snapshot_outcome(reads))
            &&& match snapshot_outcome(reads) {
                Err(unread) => {
                    &&& rollback.attempted.len() == 0 && rollback.verified.len() == 0
                    &&& run.recovery.backward.len() == 0
                    &&& rollback.error == Some(unread)
                },
                Ok(current) => if may_be_led_back(before, current, report.attempted) {
                    let changes = planned(current, before);
                    &&& in_turn(
                        current,
                        changes,
                        run.recovery.backward,
                        rollback.attempted,
                        rollback.verified,
                    )
                    &&& rollback.verified.len() == changes.len() ==> {
                        &&& run.recovery.backward.len() == 2 * changes.len()
                        &&& rollback.error == (match snapshot_outcome(
                            run.recovery.verdict[0]->reads,
                        ) {
                            Ok(_) => None::<ErrorView>,
                            Err(unread) => Some(unread),
                        })
                    }
                    &&& rollback.verified.len() < changes.len() ==> (
                    rollback.error matches Some(error) && ended(
                        current,
                        changes,
                        run.recovery.backward,
                        rollback.attempted,
                        rollback.verified,
                        error,
                        ErrorView {
                            kind: "rollback"@,
                            message: "settings changed during rollback"@,
                            exit_code: 1,
                        },
                    ))
                    &&& forall|at: int|
                        0 <= at < rollback.attempted.len() ==> tells_change(
                            #[trigger] rollback.attempted[at],
                            current,
                            before,
                        )
                } else {
                    &&& rollback.attempted.len() == 0 && rollback.verified.len() == 0
                    &&& run.recovery.backward.len() == 0
                    &&& rollback.error matches Some(error) && error.kind == "rollback"@
                        && error.exit_code == 1
                },
            }
        },
{
    found_first(update, false, run, report);
    let before = first_state(run);
    let target = updated(update, before);
    a_plan_tells_every_change(before, target);
    if let Some(rollback) = report.rollback {
        let assessment = run.recovery.assessment[0];
        let reads = assessment->reads;
        if let Ok(current) = snapshot_outcome(reads) {
            a_state_is_what_was_read(reads);
            a_plan_tells_every_change(current, before);
            let (a, b) = (current[3], before[3]);
            assert((a ^ b) & !0x0100u16 == 0 <==> a & 0xfeffu16 == b & 0xfeffu16) by (bit_vector);
            let attempted = report.attempted;
            assert(may_be_led_back(before, current, attempted) <==> crate::update::refusal(
                before,
                current,
                attempted,
            ) is None) by {
                assert forall|i: int| touched(attempted, i) <==> exists|k: int|
                    0 <= k < attempted.len() && (#[trigger] attempted[k]).index == i by {}
            }
            if may_be_led_back(before, current, attempted) {
                let changes = planned(current, before);
                turns_are_taken(
                    current,
                    changes,
                    run.recovery.backward,
                    crate::update::rollback_error("settings changed during rollback"@),
                    rollback.attempted,
                    rollback.verified,
                    run.recovery.failure,
                );
                assert forall|at: int| 0 <= at < rollback.attempted.len() implies tells_change(
                    #[trigger] rollback.attempted[at],
                    current,
                    before,
                ) by {
                    assert(rollback.attempted[at] == changes[at]);
                }
            }
        }
    }
}

/// A rollback says that the state is restored exactly where the last look at the device, of the
/// whole state, found that of before in all four registers; that it is incomplete where it found
/// another; and that it is unknown where the look failed, which is then an error too.
pub proof fn a_rollback_has_its_status(
    update: Update,
    run: Run,
    report: ReportView,
    rollback: RollbackView,
)
    requires
        applied(update, false, run, Ok(report)),
        report.rollback == Some(rollback),
    ensures
        run.steps().last() matches Step::Look { reads } && is_snapshot(reads) && rollback.status == (
        match snapshot_outcome(reads) {
            Ok(state) => if state == first_state(run) {
                "restored"@
            } else {
                "incomplete"@
            },
            Err(_) => "unknown"@,
        }) && (snapshot_outcome(reads) is Err ==> rollback.error is Some),
{
    found_first(update, false, run, report);
    assert(run.steps().last() == run.recovery.verdict[0]);
}

} // verus!
