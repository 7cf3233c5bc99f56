//! Carrying out an update: one verified write after the other, and recovery where one fails.
use vstd::prelude::*;
use vstd::string::StringExecFns;

use crate::elan::{
    change_views, is_snapshot, shown_settings, snapshot_outcome, state_outcome, target_outcome,
    update_check, Change, ChangeView, Settings, State, Update, HAPTICS, REGS,
};
use crate::error::{outcome, Error, ErrorView};
use crate::plan::{carried_out, plan, plan_outcome, planned};
use crate::protocol::{
    added, added_in_turn, continues, is_write, joined, write_outcome, Exchange, FeatureIo,
    Protocol,
};

verus! {

/// One step of an update: a look at the whole state, or a verified write of one register.
pub enum Step {
    Look { reads: Seq<Seq<Exchange>> },
    Put { index: int, value: u16, log: Seq<Exchange> },
}

impl Step {
    /// The exchanges of the step.
    pub open spec fn log(self) -> Seq<Exchange> {
        match self {
            Step::Look { reads } => joined(reads),
            Step::Put { log, .. } => log,
        }
    }

    /// Whether the step is a look at the state.
    pub open spec fn is_look(self) -> bool {
        self matches Step::Look { reads } && is_snapshot(reads)
    }

    /// The state that a look found.
    pub open spec fn seen(self) -> Result<Seq<u16>, ErrorView> {
        snapshot_outcome(self->reads)
    }

    /// Whether the step is the write that a change asks for.
    pub open spec fn is_put(self, change: ChangeView) -> bool {
        self matches Step::Put { index, value, log } && {
            &&& index == change.index
            &&& value == change.after_raw
            &&& 0 <= index < 4
            &&& is_write(REGS@[index], value, log)
        }
    }

    /// What a write came to.
    pub open spec fn put_outcome(self) -> Result<(), ErrorView> {
        write_outcome(REGS@[self->index], self->value, self->log)
    }
}

/// The exchanges of a row of steps.
pub open spec fn steps_log(steps: Seq<Step>) -> Seq<Exchange>
    decreases steps.len(),
{
    if steps.len() == 0 {
        seq![]
    } else {
        steps_log(steps.drop_last()) + steps.last().log()
    }
}

/// Whether a change was made: the state was found as expected, and the write succeeded.
pub open spec fn made(start: Seq<u16>, changes: Seq<ChangeView>, steps: Seq<Step>, i: int) -> bool {
    &&& steps[2 * i].is_look()
    &&& steps[2 * i].seen() == Ok::<Seq<u16>, ErrorView>(carried_out(start, changes.take(i)))
    &&& steps[2 * i + 1].is_put(changes[i])
    &&& steps[2 * i + 1].put_outcome() is Ok
}

/// Whether `steps` are those of writing `changes` in turn, beginning at the state `start`.
///
/// Before each write the state is looked at. If it cannot be read, or is not what the earlier
/// writes must have left, nothing more is written; nor is it after a write that failed. So many
/// writes were attempted, so many verified, and this is the failure that ended the row.
pub open spec fn written_in_turn(
    start: Seq<u16>,
    changes: Seq<ChangeView>,
    steps: Seq<Step>,
    diverged: ErrorView,
    attempted: int,
    verified: int,
    failure: Option<ErrorView>,
) -> bool {
    &&& 0 <= verified <= changes.len()
    &&& steps.len() >= 2 * verified
    &&& forall|i: int| 0 <= i < verified ==> #[trigger] made(start, changes, steps, i)
    &&& match failure {
        None => {
            &&& verified == changes.len()
            &&& attempted == verified
            &&& steps.len() == 2 * verified
        },
        Some(error) => {
            let look = steps[2 * verified];
            let put = steps[2 * verified + 1];
            &&& verified < changes.len()
            &&& steps.len() > 2 * verified
            &&& look.is_look()
            &&& if look.seen() == Ok::<Seq<u16>, ErrorView>(
                carried_out(start, changes.take(verified)),
            ) {
                &&& attempted == verified + 1
                &&& steps.len() == 2 * verified + 2
                &&& put.is_put(changes[verified])
                &&& put.put_outcome() == Err::<(), ErrorView>(error)
            } else {
                &&& attempted == verified
                &&& steps.len() == 2 * verified + 1
                &&& error == (match look.seen() {
                    Err(unread) => unread,
                    Ok(_) => diverged,
                })
            }
        },
    }
}

pub open spec fn failure_view(error: Option<Error>) -> Option<ErrorView> {
    match error {
        Some(error) => Some(error@),
        None => None,
    }
}

/// How far a row of writes came.
struct Progress {
    attempted: Vec<Change>,
    verified: Vec<Change>,
    failure: Option<Error>,
}

proof fn log_grows(steps: Seq<Step>, step: Step)
    ensures
        steps_log(steps.push(step)) == steps_log(steps) + step.log(),
{
    assert(steps.push(step).drop_last() =~= steps);
}

/// The exchanges of two rows of steps are those of the first, and then those of the second.
pub proof fn log_joins(first: Seq<Step>, second: Seq<Step>)
    ensures
        steps_log(first + second) == steps_log(first) + steps_log(second),
    decreases second.len(),
{
    if second.len() == 0 {
        assert(first + second =~= first);
        assert(steps_log(first) + steps_log(second) =~= steps_log(first));
    } else {
        let all = first + second;
        assert(all.drop_last() =~= first + second.drop_last());
        log_joins(first, second.drop_last());
        assert(steps_log(all) =~= steps_log(first) + steps_log(second));
    }
}

/// The exchanges of a single step.
pub proof fn one_step_log(step: Step)
    ensures
        steps_log(seq![step]) == step.log(),
{
    reveal_with_fuel(steps_log, 2);
    assert(seq![step].drop_last() =~= seq![]);
    assert(steps_log(seq![step]) =~= step.log());
}

/// Looks at the state, and takes the look down as a step.
fn look<T: FeatureIo>(io: &mut Protocol<T>) -> (seen: (Result<State, Error>, Ghost<Step>))
    ensures
        continues(old(io).log(), final(io).log()),
        seen.1@.is_look(),
        added(old(io).log(), final(io).log()) == seen.1@.log(),
        state_outcome(seen.0) == seen.1@.seen(),
{
    let state = State::read(io);
    let ghost reads = choose|reads: Seq<Seq<Exchange>>|
        {
            &&& is_snapshot(reads)
            &&& added(old(io).log(), io.log()) == #[trigger] joined(reads)
            &&& state_outcome(state) == snapshot_outcome(reads)
        };
    (state, Ghost(Step::Look { reads }))
}

fn first_changes(changes: &Vec<Change>, count: usize) -> (first: Vec<Change>)
    requires
        count <= changes@.len(),
    ensures
        first@ == changes@.take(count as int),
{
    let mut first: Vec<Change> = Vec::new();
    let mut i: usize = 0;
    while i < count
        invariant
            i <= count <= changes@.len(),
            first@ == changes@.take(i as int),
        decreases count - i,
    {
        first.push(changes[i]);
        assert(first@ =~= changes@.take(i + 1));
        i = i + 1;
    }
    first
}

/// Writes changes in turn, and stops at the first thing that goes wrong.
fn write_in_turn<T: FeatureIo>(
    io: &mut Protocol<T>,
    start: State,
    changes: &Vec<Change>,
    diverged_kind: &'static str,
    diverged_message: &str,
) -> (result: (Progress, Ghost<Seq<Step>>))
    requires
        forall|i: int| 0 <= i < changes@.len() ==> (#[trigger] changes@[i]).index < 4,
    ensures
        continues(old(io).log(), final(io).log()),
        added(old(io).log(), final(io).log()) == steps_log(result.1@),
        result.0.attempted@.len() <= changes@.len(),
        result.0.attempted@ == changes@.take(result.0.attempted@.len() as int),
        result.0.verified@.len() <= changes@.len(),
        result.0.verified@ == changes@.take(result.0.verified@.len() as int),
        written_in_turn(
            start@,
            change_views(changes@),
            result.1@,
            ErrorView { kind: diverged_kind@, message: diverged_message@, exit_code: 1 },
            result.0.attempted@.len() as int,
            result.0.verified@.len() as int,
            failure_view(result.0.failure),
        ),
{
    let ghost begin = io.log();
    let ghost views = change_views(changes@);
    let ghost mut steps: Seq<Step> = seq![];
    let mut expected = start;
    let mut done: usize = 0;
    assert(added(begin, io.log()) =~= steps_log(steps));
    assert(views.take(0) =~= Seq::<ChangeView>::empty());
    while done < changes.len()
        invariant
            done <= changes@.len(),
            forall|i: int| 0 <= i < changes@.len() ==> (#[trigger] changes@[i]).index < 4,
            begin == old(io).log(),
            views == change_views(changes@),
            continues(begin, io.log()),
            added(begin, io.log()) == steps_log(steps),
            steps.len() == 2 * done,
            expected@ == carried_out(start@, views.take(done as int)),
            forall|i: int| 0 <= i < done ==> #[trigger] made(start@, views, steps, i),
        decreases changes@.len() - done,
    {
        let ghost before_look = io.log();
        let (state, Ghost(step)) = look(io);
        let ghost earlier = steps;
        proof {
            added_in_turn(begin, before_look, io.log());
            log_grows(steps, step);
            steps = steps.push(step);
            assert forall|i: int| 0 <= i < done implies #[trigger] made(start@, views, steps, i) by {
                assert(made(start@, views, earlier, i));
            }
        }
        let state = match state {
            Ok(state) => state,
            Err(error) => {
                return (
                    Progress {
                        attempted: first_changes(changes, done),
                        verified: first_changes(changes, done),
                        failure: Some(error),
                    },
                    Ghost(steps),
                );
            },
        };
        if !state.equals(&expected) {
            return (
                Progress {
                    attempted: first_changes(changes, done),
                    verified: first_changes(changes, done),
                    failure: Some(Error::new(1, diverged_kind, diverged_message)),
                },
                Ghost(steps),
            );
        }
        let change = changes[done];
        assert(views[done as int] == change@);
        let ghost before_put = io.log();
        let written = io.write_verified(REGS[change.index], change.after_raw);
        let ghost put = Step::Put {
            index: change.index as int,
            value: change.after_raw,
            log: added(before_put, io.log()),
        };
        let ghost looked = steps;
        proof {
            added_in_turn(begin, before_put, io.log());
            log_grows(steps, put);
            steps = steps.push(put);
            assert forall|i: int| 0 <= i < done implies #[trigger] made(start@, views, steps, i) by {
                assert(made(start@, views, looked, i));
            }
            assert(put.is_put(views[done as int]));
            assert(put.put_outcome() == outcome(written));
        }
        match written {
            Ok(()) => {},
            Err(error) => {
                return (
                    Progress {
                        attempted: first_changes(changes, done + 1),
                        verified: first_changes(changes, done),
                        failure: Some(error),
                    },
                    Ghost(steps),
                );
            },
        }
        let mut registers = expected.0;
        registers[change.index] = change.after_raw;
        assert(views.take(done + 1).drop_last() =~= views.take(done as int));
        assert(registers@ =~= expected@.update(change.index as int, change.after_raw));
        expected = State(registers);
        assert(made(start@, views, steps, done as int));
        done = done + 1;
    }
    (
        Progress {
            attempted: first_changes(changes, done),
            verified: first_changes(changes, done),
            failure: None,
        },
        Ghost(steps),
    )
}

/// How a rollback went.
#[derive(Debug)]
pub struct Rollback {
    pub status: &'static str,
    pub attempted: Vec<Change>,
    pub verified: Vec<Change>,
    pub error: Option<Error>,
}

/// How an update went.
#[derive(Debug)]
pub struct UpdateReport {
    pub status: &'static str,
    pub before: Settings,
    pub requested: Settings,
    pub observed_after: Option<Settings>,
    pub planned: Vec<Change>,
    pub attempted: Vec<Change>,
    pub verified: Vec<Change>,
    pub error: Option<Error>,
    pub rollback: Option<Rollback>,
}

/// What a [`Rollback`] says.
#[verifier::ext_equal]
pub struct RollbackView {
    pub status: Seq<char>,
    pub attempted: Seq<ChangeView>,
    pub verified: Seq<ChangeView>,
    pub error: Option<ErrorView>,
}

/// What an [`UpdateReport`] says.
#[verifier::ext_equal]
pub struct ReportView {
    pub status: Seq<char>,
    pub before: Settings,
    pub requested: Settings,
    pub observed_after: Option<Settings>,
    pub planned: Seq<ChangeView>,
    pub attempted: Seq<ChangeView>,
    pub verified: Seq<ChangeView>,
    pub error: Option<ErrorView>,
    pub rollback: Option<RollbackView>,
}

impl View for Rollback {
    type V = RollbackView;

    open spec fn view(&self) -> RollbackView {
        RollbackView {
            status: self.status@,
            attempted: change_views(self.attempted@),
            verified: change_views(self.verified@),
            error: failure_view(self.error),
        }
    }
}

impl View for UpdateReport {
    type V = ReportView;

    open spec fn view(&self) -> ReportView {
        ReportView {
            status: self.status@,
            before: self.before,
            requested: self.requested,
            observed_after: self.observed_after,
            planned: change_views(self.planned@),
            attempted: change_views(self.attempted@),
            verified: change_views(self.verified@),
            error: failure_view(self.error),
            rollback: match self.rollback {
                Some(rollback) => Some(rollback@),
                None => None,
            },
        }
    }
}

/// An update that was carried out, or why it was not begun.
pub open spec fn report_outcome(report: Result<UpdateReport, Error>) -> Result<
    ReportView,
    ErrorView,
> {
    match report {
        Ok(report) => Ok(report@),
        Err(error) => Err(error@),
    }
}

/// A failure to restore the state.
pub open spec fn rollback_error(message: Seq<char>) -> ErrorView {
    ErrorView { kind: "rollback"@, message, exit_code: 1 }
}

/// Whether a write of a register was attempted.
pub open spec fn touched(attempted: Seq<ChangeView>, index: int) -> bool {
    exists|k: int| 0 <= k < attempted.len() && (#[trigger] attempted[k]).index == index
}

/// Why a state must not be rolled back: a setting that was not written has changed, or control
/// bits other than the one for feedback have, or there is no safe way back.
pub open spec fn refusal(
    before: Seq<u16>,
    current: Seq<u16>,
    attempted: Seq<ChangeView>,
) -> Option<ErrorView> {
    if exists|i: int|
        0 <= i < 4 && #[trigger] current[i] != before[i] && !touched(attempted, i) {
        Some(
            rollback_error(
                "an untouched setting changed; refusing to overwrite external changes"@,
            ),
        )
    } else if (current[3] ^ before[3]) & !HAPTICS != 0 {
        Some(rollback_error("unrelated control bits changed; rollback stopped"@))
    } else {
        match plan_outcome(current, before) {
            Err(error) => Some(
                rollback_error("cannot establish safe rollback order: "@ + error.message),
            ),
            Ok(_) => None,
        }
    }
}

/// The steps that carry planned changes out, part by part.
pub struct Advance {
    /// The writes.
    pub forward: Seq<Step>,
    /// The look after all of them were verified.
    pub closing: Seq<Step>,
    /// What ended the writes before their time.
    pub stopped: Option<ErrorView>,
}

/// The steps that restore a state, part by part.
pub struct Recovery {
    /// The look at what a failure has left.
    pub assessment: Seq<Step>,
    /// The writes that lead back.
    pub backward: Seq<Step>,
    /// What kept them from being made, or ended them before their time.
    pub failure: Option<ErrorView>,
    /// The look at what became of it.
    pub verdict: Seq<Step>,
}

/// The steps of an update, part by part.
pub struct Run {
    /// The look at the state before anything else.
    pub opening: Seq<Step>,
    pub advance: Advance,
    pub recovery: Recovery,
}

impl Advance {
    pub open spec fn steps(self) -> Seq<Step> {
        self.forward + self.closing
    }

    pub open spec fn none() -> Advance {
        Advance { forward: seq![], closing: seq![], stopped: None }
    }
}

impl Recovery {
    pub open spec fn steps(self) -> Seq<Step> {
        self.assessment + self.backward + self.verdict
    }

    pub open spec fn none() -> Recovery {
        Recovery { assessment: seq![], backward: seq![], failure: None, verdict: seq![] }
    }
}

impl Run {
    pub open spec fn steps(self) -> Seq<Step> {
        self.opening + self.advance.steps() + self.recovery.steps()
    }

    /// The exchanges of the update.
    pub open spec fn log(self) -> Seq<Exchange> {
        steps_log(self.steps())
    }
}

/// Whether a part of an update is a single look at the state.
pub open spec fn one_look(steps: Seq<Step>) -> bool {
    steps.len() == 1 && steps[0].is_look()
}

/// Settings as observed, where they could be read.
pub open spec fn observed(seen: Result<Seq<u16>, ErrorView>) -> Option<Settings> {
    match seen {
        Ok(state) => Some(shown_settings(state)),
        Err(_) => None,
    }
}

/// Whether this is how the state is restored after `attempted` writes: the state is looked at and,
/// unless that is refused, led back to what it was; then it is looked at once more. It is
/// restored where that last look finds the state of before, and unknown where it fails.
pub open spec fn recovered(
    before: Seq<u16>,
    attempted: Seq<ChangeView>,
    recovery: Recovery,
    rollback: RollbackView,
    observed_after: Option<Settings>,
) -> bool {
    &&& one_look(recovery.assessment)
    &&& one_look(recovery.verdict)
    &&& led_back(before, attempted, recovery, rollback)
    &&& observed_after == observed(recovery.verdict[0].seen())
    &&& match recovery.verdict[0].seen() {
        Ok(actual) => {
            &&& rollback.status == if actual == before {
                "restored"@
            } else {
                "incomplete"@
            }
            &&& rollback.error == recovery.failure
        },
        Err(error) => {
            &&& rollback.status == "unknown"@
            &&& rollback.error == (if recovery.failure is Some {
                recovery.failure
            } else {
                Some(error)
            })
        },
    }
}

/// Whether the writes of a recovery are those that lead back from the state that was found, and
/// its failure is what ended them.
pub open spec fn led_back(
    before: Seq<u16>,
    attempted: Seq<ChangeView>,
    recovery: Recovery,
    rollback: RollbackView,
) -> bool {
    match recovery.assessment[0].seen() {
        Err(error) => {
            &&& recovery.backward.len() == 0
            &&& rollback.attempted.len() == 0
            &&& rollback.verified.len() == 0
            &&& recovery.failure == Some(error)
        },
        Ok(current) => match refusal(before, current, attempted) {
            Some(error) => {
                &&& recovery.backward.len() == 0
                &&& rollback.attempted.len() == 0
                &&& rollback.verified.len() == 0
                &&& recovery.failure == Some(error)
            },
            None => {
                let changes = planned(current, before);
                &&& rollback.attempted.len() <= changes.len()
                &&& rollback.attempted == changes.take(rollback.attempted.len() as int)
                &&& rollback.verified.len() <= changes.len()
                &&& rollback.verified == changes.take(rollback.verified.len() as int)
                &&& written_in_turn(
                    current,
                    changes,
                    recovery.backward,
                    rollback_error("settings changed during rollback"@),
                    rollback.attempted.len() as int,
                    rollback.verified.len() as int,
                    recovery.failure,
                )
            },
        },
    }
}

proof fn views_of_beginning(changes: Seq<Change>, count: int)
    requires
        0 <= count <= changes.len(),
    ensures
        change_views(changes.take(count)) == change_views(changes).take(count),
{
    assert(change_views(changes.take(count)) =~= change_views(changes).take(count));
}

/// Whether a write of a register was attempted.
fn was_touched(attempted: &Vec<Change>, index: usize) -> (yes: bool)
    ensures
        yes == touched(change_views(attempted@), index as int),
{
    let mut k: usize = 0;
    while k < attempted.len()
        invariant
            k <= attempted@.len(),
            forall|j: int| 0 <= j < k ==> (#[trigger] change_views(attempted@)[j]).index != index,
        decreases attempted@.len() - k,
    {
        assert(change_views(attempted@)[k as int] == attempted@[k as int]@);
        if attempted[k].index == index {
            return true;
        }
        k = k + 1;
    }
    false
}

/// Finds the way back from a state, or why there is none that may be taken.
fn way_back(before: State, current: State, attempted: &Vec<Change>) -> (changes: Result<
    Vec<Change>,
    Error,
>)
    ensures
        changes matches Err(error) ==> refusal(before@, current@, change_views(attempted@))
            == Some(error@),
        changes matches Ok(changes) ==> {
            &&& refusal(before@, current@, change_views(attempted@)) is None
            &&& change_views(changes@) == planned(current@, before@)
            &&& forall|i: int| 0 <= i < changes@.len() ==> (#[trigger] changes@[i]).index < 4
        },
{
    let mut i: usize = 0;
    while i < 4
        invariant
            i <= 4,
            forall|k: int|
                0 <= k < i ==> #[trigger] current@[k] == before@[k] || touched(
                    change_views(attempted@),
                    k,
                ),
        decreases 4 - i,
    {
        if current.0[i] != before.0[i] && !was_touched(attempted, i) {
            assert(current@[i as int] != before@[i as int]);
            return Err(
                Error::new(
                    1,
                    "rollback",
                    "an untouched setting changed; refusing to overwrite external changes",
                ),
            );
        }
        i = i + 1;
    }
    // Control bits of others are never overwritten, not even to restore the state.
    if (current.0[3] ^ before.0[3]) & !HAPTICS != 0 {
        return Err(
            Error::new(1, "rollback", "unrelated control bits changed; rollback stopped"),
        );
    }
    match plan(current, before) {
        Ok(changes) => Ok(changes),
        Err(error) => {
            let message = String::from_str("cannot establish safe rollback order: ").concat(
                error.message.as_str(),
            );
            Err(Error::new(1, "rollback", message.as_str()))
        },
    }
}

/// Restores the state of before, as far as that is safe.
fn recover<T: FeatureIo>(io: &mut Protocol<T>, before: State, attempted: &Vec<Change>) -> (result: (
    Rollback,
    Option<Settings>,
    Ghost<Recovery>,
))
    ensures
        continues(old(io).log(), final(io).log()),
        added(old(io).log(), final(io).log()) == steps_log(result.2@.steps()),
        recovered(before@, change_views(attempted@), result.2@, result.0@, result.1),
{
    let ghost begin = io.log();
    let (found, Ghost(step)) = look(io);
    let ghost assessed = io.log();
    let ghost assessment = seq![step];
    let mut rollback = Rollback {
        status: "incomplete",
        attempted: Vec::new(),
        verified: Vec::new(),
        error: None,
    };
    let ghost mut backward: Seq<Step> = seq![];
    assert(change_views(rollback.attempted@) =~= seq![]);
    assert(change_views(rollback.verified@) =~= seq![]);
    assert(added(assessed, io.log()) =~= steps_log(backward));
    match found {
        Err(error) => {
            rollback.error = Some(error);
        },
        Ok(current) => {
            match way_back(before, current, attempted) {
                Err(error) => {
                    rollback.error = Some(error);
                },
                Ok(changes) => {
                    let (progress, Ghost(steps)) = write_in_turn(
                        io,
                        current,
                        &changes,
                        "rollback",
                        "settings changed during rollback",
                    );
                    proof {
                        backward = steps;
                        views_of_beginning(changes@, progress.attempted@.len() as int);
                        views_of_beginning(changes@, progress.verified@.len() as int);
                    }
                    rollback.attempted = progress.attempted;
                    rollback.verified = progress.verified;
                    rollback.error = progress.failure;
                },
            }
        },
    }
    let ghost failure = failure_view(rollback.error);
    let ghost written = io.log();
    let (actual, Ghost(last)) = look(io);
    let ghost verdict = seq![last];
    let ghost recovery = Recovery { assessment, backward, failure, verdict };
    proof {
        added_in_turn(begin, assessed, written);
        added_in_turn(begin, written, io.log());
        one_step_log(step);
        one_step_log(last);
        log_joins(assessment, backward);
        log_joins(assessment + backward, verdict);
        assert(led_back(before@, change_views(attempted@), recovery, rollback@));
    }
    let mut observed_after: Option<Settings> = None;
    match actual {
        Ok(actual) => {
            observed_after = Some(actual.settings());
            if actual.equals(&before) {
                rollback.status = "restored";
            }
        },
        Err(error) => {
            rollback.status = "unknown";
            if rollback.error.is_none() {
                rollback.error = Some(error);
            }
        },
    }
    assert(led_back(before@, change_views(attempted@), recovery, rollback@));
    (rollback, observed_after, Ghost(recovery))
}

/// The report of an update that wrote nothing.
pub open spec fn untouched_report(
    status: Seq<char>,
    before: Seq<u16>,
    target: Seq<u16>,
) -> ReportView {
    ReportView {
        status,
        before: shown_settings(before),
        requested: shown_settings(target),
        observed_after: Some(shown_settings(before)),
        planned: planned(before, target),
        attempted: seq![],
        verified: seq![],
        error: None,
        rollback: None,
    }
}

/// What is wrong after all writes were verified, if anything: the state is looked at once more,
/// and must be the one that was asked for.
pub open spec fn closing_failure(
    target: Seq<u16>,
    seen: Result<Seq<u16>, ErrorView>,
) -> Option<ErrorView> {
    match seen {
        Err(error) => Some(error),
        Ok(state) => if state == target {
            None
        } else {
            Some(
                ErrorView {
                    kind: "verification"@,
                    message: "final settings differ from requested settings"@,
                    exit_code: 1,
                },
            )
        },
    }
}

/// Whether this is how the planned writes from `before` to `target` went, and `failure` what went
/// wrong with them.
pub open spec fn went_forward(
    before: Seq<u16>,
    target: Seq<u16>,
    advance: Advance,
    attempted: Seq<ChangeView>,
    verified: Seq<ChangeView>,
    failure: Option<ErrorView>,
) -> bool {
    let changes = planned(before, target);
    &&& attempted.len() <= changes.len()
    &&& attempted == changes.take(attempted.len() as int)
    &&& verified.len() <= changes.len()
    &&& verified == changes.take(verified.len() as int)
    &&& written_in_turn(
        before,
        changes,
        advance.forward,
        ErrorView {
            kind: "concurrent_change"@,
            message: "settings changed outside this process; stopping"@,
            exit_code: 1,
        },
        attempted.len() as int,
        verified.len() as int,
        advance.stopped,
    )
    &&& if advance.stopped is Some {
        &&& advance.closing.len() == 0
        &&& failure == advance.stopped
    } else {
        &&& one_look(advance.closing)
        &&& failure == closing_failure(target, advance.closing[0].seen())
    }
}

/// Whether this is how an update from `before` to `target` is carried out. Where nothing differs,
/// and in a dry run, nothing is written. Otherwise the planned changes are written in turn. After
/// a failure the state is restored, unless no write was attempted.
pub open spec fn carried_through(
    before: Seq<u16>,
    target: Seq<u16>,
    dry_run: bool,
    run: Run,
    report: ReportView,
) -> bool {
    if dry_run || planned(before, target).len() == 0 {
        &&& run.advance.steps().len() == 0
        &&& run.recovery.steps().len() == 0
        &&& report == untouched_report(
            if dry_run {
                "dry_run"@
            } else {
                "unchanged"@
            },
            before,
            target,
        )
    } else {
        &&& report.before == shown_settings(before)
        &&& report.requested == shown_settings(target)
        &&& report.planned == planned(before, target)
        &&& went_forward(
            before,
            target,
            run.advance,
            report.attempted,
            report.verified,
            report.error,
        )
        &&& if report.error is None {
            &&& run.recovery.steps().len() == 0
            &&& report.status == "applied"@
            &&& report.observed_after == Some(shown_settings(target))
            &&& report.rollback is None
        } else if report.attempted.len() == 0 {
            &&& one_look(run.recovery.assessment)
            &&& run.recovery.steps().len() == 1
            &&& report.status == "failed"@
            &&& report.observed_after == observed(run.recovery.assessment[0].seen())
            &&& report.rollback is None
        } else {
            &&& report.status == "failed"@
            &&& report.rollback matches Some(rollback) && recovered(
                before,
                report.attempted,
                run.recovery,
                rollback,
                report.observed_after,
            )
        }
    }
}

/// Whether `run` holds the steps of an update that came to `result`. The update is checked before
/// the device is asked anything, and the state to reach before anything is written.
pub open spec fn applied(
    update: Update,
    dry_run: bool,
    run: Run,
    result: Result<ReportView, ErrorView>,
) -> bool {
    match update_check(update) {
        Err(error) => {
            &&& run.steps().len() == 0
            &&& result == Err::<ReportView, ErrorView>(error)
        },
        Ok(()) => {
            &&& one_look(run.opening)
            &&& match run.opening[0].seen() {
                Err(error) => {
                    &&& run.steps().len() == 1
                    &&& result == Err::<ReportView, ErrorView>(error)
                },
                Ok(before) => match target_outcome(update, before) {
                    Err(error) => {
                        &&& run.steps().len() == 1
                        &&& result == Err::<ReportView, ErrorView>(error)
                    },
                    Ok(target) => result matches Ok(report) && carried_through(
                        before,
                        target,
                        dry_run,
                        run,
                        report,
                    ),
                },
            }
        },
    }
}

/// The exchanges of an update are those of its parts, one after the other.
pub proof fn run_log(run: Run)
    ensures
        run.log() == steps_log(run.opening) + steps_log(run.advance.steps()) + steps_log(
            run.recovery.steps(),
        ),
{
    log_joins(run.opening, run.advance.steps());
    log_joins(run.opening + run.advance.steps(), run.recovery.steps());
}

/// Writes the planned changes, and looks at the state once all are verified.
fn advance<T: FeatureIo>(
    io: &mut Protocol<T>,
    before: State,
    target: State,
    changes: &Vec<Change>,
) -> (result: (Progress, Ghost<Advance>))
    requires
        forall|i: int| 0 <= i < changes@.len() ==> (#[trigger] changes@[i]).index < 4,
        change_views(changes@) == planned(before@, target@),
    ensures
        continues(old(io).log(), final(io).log()),
        added(old(io).log(), final(io).log()) == steps_log(result.1@.steps()),
        went_forward(
            before@,
            target@,
            result.1@,
            change_views(result.0.attempted@),
            change_views(result.0.verified@),
            failure_view(result.0.failure),
        ),
{
    let ghost begin = io.log();
    let (progress, Ghost(forward)) = write_in_turn(
        io,
        before,
        changes,
        "concurrent_change",
        "settings changed outside this process; stopping",
    );
    let ghost written = io.log();
    let ghost stopped = failure_view(progress.failure);
    proof {
        views_of_beginning(changes@, progress.attempted@.len() as int);
        views_of_beginning(changes@, progress.verified@.len() as int);
    }
    let mut progress = progress;
    if progress.failure.is_some() {
        let ghost went = Advance { forward, closing: seq![], stopped };
        assert(went.steps() =~= forward);
        return (progress, Ghost(went));
    }
    let (seen, Ghost(step)) = look(io);
    let ghost went = Advance { forward, closing: seq![step], stopped };
    proof {
        added_in_turn(begin, written, io.log());
        one_step_log(step);
        log_joins(forward, went.closing);
    }
    match seen {
        Ok(state) => {
            if !state.equals(&target) {
                progress.failure = Some(
                    Error::new(
                        1,
                        "verification",
                        "final settings differ from requested settings",
                    ),
                );
            }
        },
        Err(error) => {
            progress.failure = Some(error);
        },
    }
    (progress, Ghost(went))
}

/// Carries out an update, or only plans it in a dry run.
pub fn apply<T: FeatureIo>(io: &mut Protocol<T>, update: &Update, dry_run: bool) -> (report: Result<
    UpdateReport,
    Error,
>)
    ensures
        continues(old(io).log(), final(io).log()),
        exists|run: Run|
            {
                &&& added(old(io).log(), final(io).log()) == #[trigger] run.log()
                &&& applied(*update, dry_run, run, report_outcome(report))
            },
{
    let ghost begin = io.log();
    let ghost mut run = Run {
        opening: seq![],
        advance: Advance::none(),
        recovery: Recovery::none(),
    };
    proof {
        run_log(run);
        assert(added(begin, io.log()) =~= run.log());
    }
    match update.validate() {
        Ok(()) => {},
        Err(error) => {
            return Err(error);
        },
    }
    let (seen, Ghost(opening)) = look(io);
    let ghost opened = io.log();
    proof {
        run.opening = seq![opening];
        one_step_log(opening);
        run_log(run);
        assert(added(begin, opened) =~= run.log());
        assert(run.steps() =~= seq![opening]);
    }
    let before = match seen {
        Ok(before) => before,
        Err(error) => {
            return Err(error);
        },
    };
    let target = match update.target(before) {
        Ok(target) => target,
        Err(error) => {
            return Err(error);
        },
    };
    let planned_changes = match plan(before, target) {
        Ok(changes) => changes,
        Err(error) => {
            return Err(error);
        },
    };
    let mut report = UpdateReport {
        status: if dry_run {
            "dry_run"
        } else if planned_changes.len() == 0 {
            "unchanged"
        } else {
            "applied"
        },
        before: before.settings(),
        requested: target.settings(),
        observed_after: Some(before.settings()),
        planned: first_changes(&planned_changes, planned_changes.len()),
        attempted: Vec::new(),
        verified: Vec::new(),
        error: None,
        rollback: None,
    };
    proof {
        assert(planned_changes@.take(planned_changes@.len() as int) =~= planned_changes@);
        assert(change_views(report.attempted@) =~= seq![]);
        assert(change_views(report.verified@) =~= seq![]);
        assert(change_views(planned_changes@).len() == planned_changes@.len());
    }
    if dry_run || planned_changes.len() == 0 {
        assert(carried_through(before@, target@, dry_run, run, report@));
        return Ok(report);
    }
    let (progress, Ghost(went)) = advance(io, before, target, &planned_changes);
    let ghost advanced = io.log();
    proof {
        added_in_turn(begin, opened, advanced);
        run.advance = went;
        run_log(run);
        assert(added(begin, advanced) =~= run.log());
    }
    report.attempted = progress.attempted;
    report.verified = progress.verified;
    report.error = progress.failure;
    if report.error.is_none() {
        report.observed_after = Some(target.settings());
        assert(carried_through(before@, target@, dry_run, run, report@));
        return Ok(report);
    }
    report.status = "failed";
    report.observed_after = None;
    if report.attempted.len() == 0 {
        let (seen, Ghost(step)) = look(io);
        proof {
            added_in_turn(begin, advanced, io.log());
            run.recovery = Recovery {
                assessment: seq![step],
                backward: seq![],
                failure: None,
                verdict: seq![],
            };
            one_step_log(step);
            assert(run.recovery.steps() =~= seq![step]);
            run_log(run);
            assert(added(begin, io.log()) =~= run.log());
        }
        match seen {
            Ok(state) => {
                report.observed_after = Some(state.settings());
            },
            Err(_) => {},
        }
        assert(carried_through(before@, target@, dry_run, run, report@));
        return Ok(report);
    }
    let (rollback, observed_after, Ghost(recovery)) = recover(io, before, &report.attempted);
    proof {
        added_in_turn(begin, advanced, io.log());
        run.recovery = recovery;
        run_log(run);
        assert(added(begin, io.log()) =~= run.log());
    }
    report.observed_after = observed_after;
    report.rollback = Some(rollback);
    assert(carried_through(before@, target@, dry_run, run, report@));
    Ok(report)
}

} // verus!
