//! What holds of every update, whatever the device does, and what holds of devices that do what
//! they are told.
use vstd::prelude::*;

use crate::command::{
    change_outcome, comes_to, compatible, emitted, given_selector, is_execution, is_work,
    preflight_outcome, reading, Command,
};
use crate::device::{discovered, Device, DeviceView, Listing};
use crate::document::DataView;
use crate::elan::{
    feedback, first_outside, hysteresis, in_bounds, is_snapshot, shown_settings,
    snapshot_outcome, target_outcome, update_check, updated, ChangeView, Settings, Update, HAPTICS,
    REGS,
};
use crate::error::{Error, ErrorView, OsError};
use crate::opener::Access;
use crate::plan::{
    carried_out, change_of, plan_keeps_hysteresis, plan_leads_to_target, plan_names_what_differs,
    planned,
};
use crate::protocol::{
    added, answer_report, continues, decoded, high, identity_outcome, is_identity_check, is_read,
    is_write, joined, little_endian, low, query_report, read_outcome, write_outcome, write_report,
    Exchange, FeatureIo, Protocol, Record, FIRST_EXPECTED, FIRST_IDENTITY, REPORT, SECOND_EXPECTED,
    SECOND_IDENTITY,
};
use crate::selection::{
    candidates_outcome, chosen_device_is_the_only_one, closings, compatible_count, conclusion,
    is_selection, is_visit_of, tour_of, visit_accesses, visit_probes, Chosen, Visit,
};
use crate::update::{
    applied, carried_through, log_joins, made, one_look, one_step_log, recovered, refusal,
    rollback_error, run_log, steps_log, touched, went_forward, written_in_turn, Advance, Recovery,
    ReportView, RollbackView, Run, Step,
};

verus! {

/// Two bytes of a number, put together again, are the number.
pub proof fn bytes_round_trip(n: u16)
    ensures
        little_endian(low(n), high(n)) == n,
{
}

/// The reply that carries a value is read as that value.
pub proof fn answer_is_decoded(reg: u16, value: u16)
    ensures
        decoded(reg, answer_report(reg, value), 5) == Ok::<u16, ErrorView>(value),
{
    assert(answer_report(reg, value).take(3) =~= seq![REPORT, low(reg), high(reg)]);
    bytes_round_trip(value);
}

/// A write is taken for done only where it was sent whole and the register was then read back with
/// the value that was written.
pub proof fn verified_write_was_read_back(reg: u16, value: u16, log: Seq<Exchange>)
    requires
        is_write(reg, value, log),
    ensures
        write_outcome(reg, value, log) is Ok <==> {
            &&& log[0]->Sent_reply == Ok::<usize, ErrorView>(5)
            &&& read_outcome(reg, log.skip(2)) == Ok::<u16, ErrorView>(value)
        },
{
}

/// Whether a report selects a register for reading, and so sets nothing.
pub open spec fn is_query(report: Seq<u8>) -> bool {
    report[1] == 5 && report[2] == 3
}

/// Whether an exchange sends a report that sets a parameter.
pub open spec fn sets(exchange: Exchange) -> bool {
    exchange matches Exchange::Sent { report, .. } && !is_query(report)
}

/// A write of a settings register is never taken for a query.
pub proof fn setting_write_is_no_query(index: int, value: u16)
    requires
        0 <= index < 4,
    ensures
        !is_query(write_report(REGS@[index], value)),
{
    assert(index == 0 || index == 1 || index == 2 || index == 3);
}

/// Whether a record sets no parameter.
pub open spec fn sets_nothing(log: Seq<Exchange>) -> bool {
    forall|k: int| 0 <= k < log.len() ==> !sets(#[trigger] log[k])
}

proof fn read_sets_nothing(reg: u16, log: Seq<Exchange>)
    requires
        is_read(reg, log),
    ensures
        sets_nothing(log),
{
    assert(log[0]->Sent_report == query_report(reg));
}

proof fn reads_set_nothing(reads: Seq<Seq<Exchange>>)
    requires
        forall|i: int| 0 <= i < reads.len() ==> sets_nothing(#[trigger] reads[i]),
    ensures
        sets_nothing(joined(reads)),
    decreases reads.len(),
{
    if reads.len() > 0 {
        let earlier = reads.drop_last();
        assert forall|i: int| 0 <= i < earlier.len() implies sets_nothing(#[trigger] earlier[i]) by {
            assert(earlier[i] == reads[i]);
        }
        reads_set_nothing(earlier);
        assert(sets_nothing(reads[reads.len() - 1]));
    }
}

/// Reading the settings sets no parameter.
pub proof fn reading_sets_nothing(reads: Seq<Seq<Exchange>>)
    requires
        is_snapshot(reads),
    ensures
        sets_nothing(joined(reads)),
{
    assert forall|i: int| 0 <= i < reads.len() implies sets_nothing(#[trigger] reads[i]) by {
        read_sets_nothing(REGS@[i], reads[i]);
    }
    reads_set_nothing(reads);
}

proof fn look_sets_nothing(step: Step)
    requires
        step.is_look(),
    ensures
        sets_nothing(step.log()),
{
    reading_sets_nothing(step->reads);
}

/// An identity check sets no parameter.
pub proof fn identity_check_sets_nothing(reads: Seq<Seq<Exchange>>)
    requires
        is_identity_check(reads),
    ensures
        sets_nothing(joined(reads)),
{
    assert forall|i: int| 0 <= i < reads.len() implies sets_nothing(#[trigger] reads[i]) by {
        read_sets_nothing(
            if i == 0 {
                FIRST_IDENTITY
            } else {
                SECOND_IDENTITY
            },
            reads[i],
        );
    }
    reads_set_nothing(reads);
}

/// An update that is refused, one that is only planned, and one that changes nothing send queries
/// and set no parameter.
pub proof fn nothing_is_set_without_need(
    update: Update,
    dry_run: bool,
    run: Run,
    result: Result<ReportView, ErrorView>,
)
    requires
        applied(update, dry_run, run, result),
        result is Err || dry_run || result->Ok_0.planned.len() == 0,
    ensures
        sets_nothing(run.log()),
{
    let steps = run.steps();
    if steps.len() == 1 {
        let step = steps[0];
        assert(step == run.opening[0]);
        look_sets_nothing(step);
        assert(steps =~= seq![step]);
        one_step_log(step);
    } else {
        assert(steps.len() == 0);
    }
}

/// What the registers of a device hold.
pub type Registers = Map<u16, u16>;

/// The settings that registers hold.
pub open spec fn held(registers: Registers) -> Seq<u16> {
    Seq::new(4, |i: int| registers[REGS@[i]])
}

/// The register that a query asks for.
pub open spec fn asked(report: Seq<u8>) -> u16 {
    little_endian(report[3], report[4])
}

/// The registers after a report that sets one of them.
pub open spec fn after_set(registers: Registers, report: Seq<u8>) -> Registers {
    registers.insert(little_endian(report[1], report[2]), little_endian(report[3], report[4]))
}

/// Whether one exchange is that of a device that answers queries with what its registers hold, and
/// whose registers nobody else changes. A write takes effect or does not, whatever is reported.
pub open spec fn truthful_at(log: Seq<Exchange>, history: Seq<Registers>, k: int) -> bool {
    match log[k] {
        Exchange::Sent { report, reply } => if is_query(report) {
            &&& reply == Ok::<usize, ErrorView>(5)
            &&& history[k + 1] == history[k]
        } else {
            history[k + 1] == history[k] || history[k + 1] == after_set(history[k], report)
        },
        Exchange::Fetched { filled, reply, .. } => {
            &&& history[k + 1] == history[k]
            &&& k > 0 && log[k - 1] is Sent && is_query(log[k - 1]->Sent_report) ==> {
                let reg = asked(log[k - 1]->Sent_report);
                &&& reply == Ok::<usize, ErrorView>(5)
                &&& filled == answer_report(reg, history[k][reg])
            }
        },
        Exchange::Settled => history[k + 1] == history[k],
    }
}

/// Whether a record is that of such a device, which held `history[k]` before the exchange `k`.
pub open spec fn truthful(log: Seq<Exchange>, history: Seq<Registers>) -> bool {
    &&& history.len() == log.len() + 1
    &&& forall|k: int| 0 <= k < log.len() ==> #[trigger] truthful_at(log, history, k)
}

/// Whether an exchange, if it is a write, was reported as done and took effect.
pub open spec fn obeyed_at(log: Seq<Exchange>, history: Seq<Registers>, k: int) -> bool {
    sets(log[k]) ==> {
        &&& log[k]->Sent_reply == Ok::<usize, ErrorView>(5)
        &&& history[k + 1] == after_set(history[k], log[k]->Sent_report)
    }
}

/// Whether a record is that of a truthful device that carries out every write, but for at most the
/// one in the exchange `fault`.
pub open spec fn obedient_but(log: Seq<Exchange>, history: Seq<Registers>, fault: int) -> bool {
    &&& truthful(log, history)
    &&& forall|k: int|
        0 <= k < log.len() && k != fault ==> #[trigger] obeyed_at(log, history, k)
}

/// Whether a record is that of a truthful device that carries out every write.
pub open spec fn obedient(log: Seq<Exchange>, history: Seq<Registers>) -> bool {
    obedient_but(log, history, -1)
}

proof fn truthful_parts(first: Seq<Exchange>, second: Seq<Exchange>, history: Seq<Registers>)
    requires
        truthful(first + second, history),
    ensures
        truthful(first, history.take(first.len() as int + 1)),
        truthful(second, history.skip(first.len() as int)),
{
    let log = first + second;
    let early = history.take(first.len() as int + 1);
    let late = history.skip(first.len() as int);
    assert forall|k: int| 0 <= k < first.len() implies #[trigger] truthful_at(first, early, k) by {
        assert(truthful_at(log, history, k));
        assert(log[k] == first[k]);
        if k > 0 {
            assert(log[k - 1] == first[k - 1]);
        }
    }
    assert forall|k: int| 0 <= k < second.len() implies #[trigger] truthful_at(second, late, k) by {
        let at = first.len() + k;
        assert(truthful_at(log, history, at));
        assert(log[at] == second[k]);
        assert(late[k] == history[at]);
        assert(late[k + 1] == history[at + 1]);
        if k > 0 {
            assert(log[at - 1] == second[k - 1]);
        }
    }
}

proof fn obedient_parts(
    first: Seq<Exchange>,
    second: Seq<Exchange>,
    history: Seq<Registers>,
    fault: int,
)
    requires
        obedient_but(first + second, history, fault),
    ensures
        obedient_but(first, history.take(first.len() as int + 1), fault),
        obedient_but(second, history.skip(first.len() as int), fault - first.len()),
{
    let log = first + second;
    let early = history.take(first.len() as int + 1);
    let late = history.skip(first.len() as int);
    truthful_parts(first, second, history);
    assert forall|k: int| 0 <= k < first.len() && k != fault implies #[trigger] obeyed_at(
        first,
        early,
        k,
    ) by {
        assert(obeyed_at(log, history, k));
        assert(log[k] == first[k]);
    }
    assert forall|k: int|
        0 <= k < second.len() && k != fault - first.len() implies #[trigger] obeyed_at(
        second,
        late,
        k,
    ) by {
        let at = first.len() + k;
        assert(obeyed_at(log, history, at));
        assert(log[at] == second[k]);
        assert(late[k] == history[at]);
        assert(late[k + 1] == history[at + 1]);
    }
}

/// Whether registers stay the same all through.
spec fn constant(history: Seq<Registers>) -> bool {
    forall|k: int| 0 <= k < history.len() ==> #[trigger] history[k] == history[0]
}

proof fn read_is_true(reg: u16, log: Seq<Exchange>, history: Seq<Registers>)
    requires
        is_read(reg, log),
        truthful(log, history),
    ensures
        constant(history),
        read_outcome(reg, log) == Ok::<u16, ErrorView>(history[0][reg]),
{
    let query = query_report(reg);
    assert(log[0]->Sent_report == query);
    assert(is_query(query));
    bytes_round_trip(reg);
    assert(asked(query) == reg);
    assert(truthful_at(log, history, 0));
    assert(truthful_at(log, history, 1));
    let value = history[1][reg];
    let filled = log[1]->filled;
    assert(filled == answer_report(reg, value));
    assert(filled.take(5) =~= filled);
    answer_is_decoded(reg, value);
}

proof fn snapshot_is_true(reads: Seq<Seq<Exchange>>, history: Seq<Registers>)
    requires
        reads.len() <= 4,
        forall|i: int| 0 <= i < reads.len() ==> is_read(REGS@[i], #[trigger] reads[i]),
        truthful(joined(reads), history),
    ensures
        constant(history),
        forall|i: int|
            0 <= i < reads.len() ==> read_outcome(REGS@[i], #[trigger] reads[i]) == Ok::<
                u16,
                ErrorView,
            >(history[0][REGS@[i]]),
    decreases reads.len(),
{
    if reads.len() > 0 {
        let earlier = reads.drop_last();
        let last = reads.last();
        let split = joined(earlier).len() as int;
        assert forall|i: int| 0 <= i < earlier.len() implies is_read(
            REGS@[i],
            #[trigger] earlier[i],
        ) by {
            assert(earlier[i] == reads[i]);
        }
        truthful_parts(joined(earlier), last, history);
        let early = history.take(split + 1);
        let late = history.skip(split);
        snapshot_is_true(earlier, early);
        read_is_true(REGS@[reads.len() - 1], last, late);
        assert(late[0] == early[split]);
        assert(early[split] == early[0]);
        assert forall|k: int| 0 <= k < history.len() implies #[trigger] history[k] == history[0] by {
            if k <= split {
                assert(early[k] == early[0]);
            } else {
                assert(late[k - split] == late[0]);
            }
        }
        assert forall|i: int| 0 <= i < reads.len() implies read_outcome(
            REGS@[i],
            #[trigger] reads[i],
        ) == Ok::<u16, ErrorView>(history[0][REGS@[i]]) by {
            if i < earlier.len() {
                assert(earlier[i] == reads[i]);
            }
        }
    }
}

/// A look at a truthful device finds what its registers hold, and changes nothing.
proof fn look_is_true(step: Step, history: Seq<Registers>)
    requires
        step.is_look(),
        truthful(step.log(), history),
    ensures
        constant(history),
        step.seen() == Ok::<Seq<u16>, ErrorView>(held(history[0])),
{
    let reads = step->reads;
    snapshot_is_true(reads, history);
    assert(reads[reads.len() - 1] == reads.last());
    assert(reads.len() == 4);
    assert(snapshot_outcome(reads)->Ok_0 =~= held(history[0]));
}

/// The identity check accepts a truthful device exactly where both identity registers hold the
/// expected values, and rejects any other as unsupported.
pub proof fn identity_check_is_exact(reads: Seq<Seq<Exchange>>, history: Seq<Registers>)
    requires
        is_identity_check(reads),
        truthful(joined(reads), history),
    ensures
        identity_outcome(reads) is Ok <==> history[0][FIRST_IDENTITY] == FIRST_EXPECTED
            && history[0][SECOND_IDENTITY] == SECOND_EXPECTED,
        identity_outcome(reads) matches Err(error) ==> error.exit_code == 5,
{
    let first = reads[0];
    let one = seq![first];
    reveal_with_fuel(joined, 3);
    assert(one.drop_last() =~= seq![]);
    assert(joined(one) =~= first);
    if reads.len() == 1 {
        assert(reads =~= one);
        read_is_true(FIRST_IDENTITY, first, history);
    } else {
        let second = reads[1];
        assert(reads.drop_last() =~= one);
        assert(joined(reads) =~= first + second);
        truthful_parts(first, second, history);
        let early = history.take(first.len() as int + 1);
        let late = history.skip(first.len() as int);
        read_is_true(FIRST_IDENTITY, first, early);
        read_is_true(SECOND_IDENTITY, second, late);
        assert(early[first.len() as int] == late[0]);
    }
}

/// Registers that differ in nothing but one setting.
spec fn with_setting(registers: Registers, index: int, value: u16) -> Registers {
    registers.insert(REGS@[index], value)
}

proof fn held_with_setting(registers: Registers, index: int, value: u16)
    requires
        0 <= index < 4,
    ensures
        held(with_setting(registers, index, value)) == held(registers).update(index, value),
{
    assert(held(with_setting(registers, index, value)) =~= held(registers).update(index, value));
}

/// A verified write either takes effect at once or not at all, and is only taken for done where it
/// took effect.
proof fn put_is_true(step: Step, change: ChangeView, history: Seq<Registers>)
    requires
        step.is_put(change),
        truthful(step.log(), history),
    ensures
        history.len() > 1,
        history[1] == history[0] || history[1] == with_setting(
            history[0],
            change.index,
            change.after_raw,
        ),
        forall|k: int| 1 <= k < history.len() ==> #[trigger] history[k] == history[1],
        step.put_outcome() is Ok ==> history[1][REGS@[change.index]] == change.after_raw,
        obeyed_at(step.log(), history, 0) ==> {
            &&& history[1] == with_setting(history[0], change.index, change.after_raw)
            &&& step.put_outcome() is Ok
        },
{
    let log = step.log();
    let index = change.index;
    let value = change.after_raw;
    let reg = REGS@[index];
    let report = write_report(reg, value);
    setting_write_is_no_query(index, value);
    bytes_round_trip(reg);
    bytes_round_trip(value);
    assert(log[0]->Sent_report == report);
    assert(truthful_at(log, history, 0));
    assert(truthful_at(log, history, 1));
    assert(after_set(history[0], report) == with_setting(history[0], index, value));
    let first = log.take(2);
    let rest = log.skip(2);
    assert(log =~= first + rest);
    truthful_parts(first, rest, history);
    let late = history.skip(2);
    read_is_true(reg, rest, late);
    assert(late[0] == history[2]);
    assert forall|k: int| 1 <= k < history.len() implies #[trigger] history[k] == history[1] by {
        if k >= 2 {
            assert(late[k - 2] == late[0]);
        }
    }
    assert(sets(log[0]));
}

/// Whether registers hold a state on the way that a list of changes takes, and all that are no
/// settings hold what they held at first.
spec fn on_the_way(
    start: Seq<u16>,
    changes: Seq<ChangeView>,
    count: int,
    first: Registers,
    now: Registers,
) -> bool {
    &&& exists|m: int|
        0 <= m <= count && held(now) == #[trigger] carried_out(start, changes.take(m))
    &&& forall|reg: u16| !REGS@.contains(reg) ==> #[trigger] now[reg] == first[reg]
}

spec fn settings_only(changes: Seq<ChangeView>) -> bool {
    forall|i: int| 0 <= i < changes.len() ==> 0 <= (#[trigger] changes[i]).index < 4
}

proof fn one_more_change(start: Seq<u16>, changes: Seq<ChangeView>, count: int)
    requires
        0 <= count < changes.len(),
    ensures
        carried_out(start, changes.take(count + 1)) == carried_out(
            start,
            changes.take(count),
        ).update(changes[count].index, changes[count].after_raw),
{
    assert(changes.take(count + 1).drop_last() =~= changes.take(count));
}

/// A look keeps the registers where they are on the way; what it finds is where they are.
proof fn looked_on_the_way(
    start: Seq<u16>,
    changes: Seq<ChangeView>,
    count: int,
    first: Registers,
    look: Step,
    history: Seq<Registers>,
)
    requires
        look.is_look(),
        truthful(look.log(), history),
        on_the_way(start, changes, count, first, history[0]),
    ensures
        look.seen() == Ok::<Seq<u16>, ErrorView>(held(history[0])),
        history.last() == history[0],
        forall|k: int|
            0 <= k < history.len() ==> on_the_way(
                start,
                changes,
                count,
                first,
                #[trigger] history[k],
            ),
{
    look_is_true(look, history);
    assert(history[history.len() - 1] == history.last());
    assert forall|k: int| 0 <= k < history.len() implies on_the_way(
        start,
        changes,
        count,
        first,
        #[trigger] history[k],
    ) by {
        assert(history[k] == history[0]);
    }
}

/// A write of the next change keeps the registers on the way, whether it takes effect or not.
proof fn put_on_the_way(
    start: Seq<u16>,
    changes: Seq<ChangeView>,
    count: int,
    first: Registers,
    put: Step,
    history: Seq<Registers>,
)
    requires
        0 <= count < changes.len(),
        put.is_put(changes[count]),
        truthful(put.log(), history),
        on_the_way(start, changes, count, first, history[0]),
        held(history[0]) == carried_out(start, changes.take(count)),
        held(history[0]).len() == 4,
    ensures
        history.len() > 1,
        forall|k: int|
            0 <= k < history.len() ==> on_the_way(
                start,
                changes,
                count + 1,
                first,
                #[trigger] history[k],
            ),
        put.put_outcome() is Ok ==> held(history.last()) == carried_out(
            start,
            changes.take(count + 1),
        ),
        obeyed_at(put.log(), history, 0) ==> put.put_outcome() is Ok,
{
    let change = changes[count];
    put_is_true(put, change, history);
    one_more_change(start, changes, count);
    held_with_setting(history[0], change.index, change.after_raw);
    assert(history[history.len() - 1] == history.last());
    let moved = with_setting(history[0], change.index, change.after_raw);
    assert(REGS@.contains(REGS@[change.index]));
    assert(on_the_way(start, changes, count + 1, first, history[0])) by {
        let m = choose|m: int|
            0 <= m <= count && held(history[0]) == #[trigger] carried_out(start, changes.take(m));
        assert(0 <= m <= count + 1);
    }
    assert(on_the_way(start, changes, count + 1, first, moved)) by {
        assert(held(moved) == carried_out(start, changes.take(count + 1)));
    }
    assert forall|k: int| 0 <= k < history.len() implies on_the_way(
        start,
        changes,
        count + 1,
        first,
        #[trigger] history[k],
    ) by {
        if k > 0 {
            assert(history[k] == history[1]);
        }
    }
    if put.put_outcome() is Ok {
        if history[1] == history[0] {
            assert(held(history[1])[change.index] == change.after_raw);
            assert(held(history[0]).update(change.index, change.after_raw) =~= held(history[0]));
        }
    }
}

proof fn further_on_the_way(
    start: Seq<u16>,
    changes: Seq<ChangeView>,
    count: int,
    more: int,
    first: Registers,
    history: Seq<Registers>,
)
    requires
        count <= more,
        forall|k: int|
            0 <= k < history.len() ==> on_the_way(
                start,
                changes,
                count,
                first,
                #[trigger] history[k],
            ),
    ensures
        forall|k: int|
            0 <= k < history.len() ==> on_the_way(
                start,
                changes,
                more,
                first,
                #[trigger] history[k],
            ),
{
    assert forall|k: int| 0 <= k < history.len() implies on_the_way(
        start,
        changes,
        more,
        first,
        #[trigger] history[k],
    ) by {
        assert(on_the_way(start, changes, count, first, history[k]));
        let m = choose|m: int|
            0 <= m <= count && held(history[k]) == #[trigger] carried_out(start, changes.take(m));
        assert(0 <= m <= more);
    }
}

/// A history whose parts are on the way is on the way.
proof fn way_joins(
    start: Seq<u16>,
    changes: Seq<ChangeView>,
    count: int,
    first: Registers,
    history: Seq<Registers>,
    split: int,
)
    requires
        0 <= split < history.len(),
        forall|k: int|
            0 <= k < history.take(split + 1).len() ==> on_the_way(
                start,
                changes,
                count,
                first,
                #[trigger] history.take(split + 1)[k],
            ),
        forall|k: int|
            0 <= k < history.skip(split).len() ==> on_the_way(
                start,
                changes,
                count,
                first,
                #[trigger] history.skip(split)[k],
            ),
    ensures
        forall|k: int|
            0 <= k < history.len() ==> on_the_way(
                start,
                changes,
                count,
                first,
                #[trigger] history[k],
            ),
{
    assert forall|k: int| 0 <= k < history.len() implies on_the_way(
        start,
        changes,
        count,
        first,
        #[trigger] history[k],
    ) by {
        if k <= split {
            assert(history.take(split + 1)[k] == history[k]);
        } else {
            assert(history.skip(split)[k - split] == history[k]);
        }
    }
}

/// As long as changes are made, the registers of a truthful device go the way of the plan.
proof fn made_on_the_way(
    start: Seq<u16>,
    changes: Seq<ChangeView>,
    steps: Seq<Step>,
    count: int,
    history: Seq<Registers>,
)
    requires
        0 <= count <= changes.len(),
        2 * count <= steps.len(),
        forall|i: int| 0 <= i < count ==> #[trigger] made(start, changes, steps, i),
        truthful(steps_log(steps.take(2 * count)), history),
        held(history[0]) == start,
    ensures
        held(history.last()) == carried_out(start, changes.take(count)),
        forall|k: int|
            0 <= k < history.len() ==> on_the_way(
                start,
                changes,
                count,
                history[0],
                #[trigger] history[k],
            ),
    decreases count,
{
    let first = history[0];
    if count == 0 {
        assert(changes.take(0) =~= seq![]);
        assert(steps.take(0) =~= seq![]);
        assert(history.last() == history[0]);
        assert(held(first) == carried_out(start, changes.take(0)));
    } else {
        let look = steps[2 * count - 2];
        let put = steps[2 * count - 1];
        let earlier = steps.take(2 * (count - 1));
        assert(made(start, changes, steps, count - 1));
        assert(steps.take(2 * count) =~= earlier + seq![look] + seq![put]);
        log_joins(earlier, seq![look]);
        log_joins(earlier + seq![look], seq![put]);
        one_step_log(look);
        one_step_log(put);
        let before = steps_log(earlier);
        let middle = before + look.log();
        truthful_parts(middle, put.log(), history);
        let h1 = history.take(middle.len() as int + 1);
        let h2 = history.skip(middle.len() as int);
        truthful_parts(before, look.log(), h1);
        let h11 = h1.take(before.len() as int + 1);
        let h12 = h1.skip(before.len() as int);
        made_on_the_way(start, changes, steps, count - 1, h11);
        assert(h12[0] == h11.last());
        looked_on_the_way(start, changes, count - 1, first, look, h12);
        assert(h2[0] == h12.last());
        put_on_the_way(start, changes, count - 1, first, put, h2);
        way_joins(start, changes, count - 1, first, h1, before.len() as int);
        further_on_the_way(start, changes, count - 1, count, first, h1);
        way_joins(start, changes, count, first, history, middle.len() as int);
        assert(history.last() == h2.last());
    }
}

/// Writing in turn keeps the registers of a truthful device on the way of the plan. It comes to
/// its end where every write is carried out.
proof fn written_on_the_way(
    start: Seq<u16>,
    changes: Seq<ChangeView>,
    steps: Seq<Step>,
    diverged: ErrorView,
    attempted: int,
    verified: int,
    failure: Option<ErrorView>,
    history: Seq<Registers>,
    fault: int,
)
    requires
        written_in_turn(start, changes, steps, diverged, attempted, verified, failure),
        truthful(steps_log(steps), history),
        held(history[0]) == start,
    ensures
        forall|k: int|
            0 <= k < history.len() ==> on_the_way(
                start,
                changes,
                attempted,
                history[0],
                #[trigger] history[k],
            ),
        failure is None ==> held(history.last()) == carried_out(start, changes),
        failure is Some ==> attempted == verified + 1,
        obedient_but(steps_log(steps), history, fault) && !(0 <= fault < steps_log(steps).len())
            ==> failure is None,
{
    let first = history[0];
    let rows = steps.take(2 * verified);
    let log = steps_log(steps);
    let made_log = steps_log(rows);
    if failure is None {
        assert(rows =~= steps);
        made_on_the_way(start, changes, steps, verified, history);
        assert(changes.take(verified) =~= changes);
    } else {
        let look = steps[2 * verified];
        let put = steps[2 * verified + 1];
        let rest = steps.skip(2 * verified);
        assert(steps =~= rows + rest);
        log_joins(rows, rest);
        truthful_parts(made_log, steps_log(rest), history);
        let h1 = history.take(made_log.len() as int + 1);
        let h2 = history.skip(made_log.len() as int);
        made_on_the_way(start, changes, steps, verified, h1);
        assert(h2[0] == h1.last());
        one_step_log(look);
        if steps.len() == 2 * verified + 1 {
            assert(rest =~= seq![look]);
            looked_on_the_way(start, changes, verified, first, look, h2);
            assert(false);
        }
        assert(rest =~= seq![look] + seq![put]);
        log_joins(seq![look], seq![put]);
        one_step_log(put);
        truthful_parts(look.log(), put.log(), h2);
        let h21 = h2.take(look.log().len() as int + 1);
        let h22 = h2.skip(look.log().len() as int);
        looked_on_the_way(start, changes, verified, first, look, h21);
        assert(h22[0] == h21.last());
        put_on_the_way(start, changes, verified, first, put, h22);
        further_on_the_way(start, changes, verified, attempted, first, h1);
        further_on_the_way(start, changes, verified, attempted, first, h21);
        way_joins(start, changes, attempted, first, h2, look.log().len() as int);
        way_joins(start, changes, attempted, first, history, made_log.len() as int);
        if obedient_but(log, history, fault) && !(0 <= fault < log.len()) {
            obedient_parts(made_log, steps_log(rest), history, fault);
            obedient_parts(look.log(), put.log(), h2, fault - made_log.len());
            assert(obeyed_at(put.log(), h22, 0));
        }
    }
}

proof fn one_look_is_true(steps: Seq<Step>, history: Seq<Registers>)
    requires
        one_look(steps),
        truthful(steps_log(steps), history),
    ensures
        constant(history),
        history.last() == history[0],
        steps[0].seen() == Ok::<Seq<u16>, ErrorView>(held(history[0])),
{
    assert(steps =~= seq![steps[0]]);
    one_step_log(steps[0]);
    look_is_true(steps[0], history);
    assert(history[history.len() - 1] == history.last());
}

/// What going forward does to a truthful device.
proof fn advance_is_true(
    before: Seq<u16>,
    target: Seq<u16>,
    advance: Advance,
    attempted: Seq<ChangeView>,
    verified: Seq<ChangeView>,
    failure: Option<ErrorView>,
    history: Seq<Registers>,
    fault: int,
)
    requires
        before.len() == 4,
        target.len() == 4,
        went_forward(before, target, advance, attempted, verified, failure),
        truthful(steps_log(advance.steps()), history),
        held(history[0]) == before,
    ensures
        forall|k: int|
            0 <= k < history.len() ==> on_the_way(
                before,
                planned(before, target),
                attempted.len() as int,
                history[0],
                #[trigger] history[k],
            ),
        failure is None ==> held(history.last()) == target,
        failure is Some ==> attempted.len() > 0,
        obedient_but(steps_log(advance.steps()), history, fault) && !(0 <= fault < steps_log(
            advance.steps(),
        ).len()) ==> failure is None,
{
    let changes = planned(before, target);
    let diverged = ErrorView {
        kind: "concurrent_change"@,
        message: "settings changed outside this process; stopping"@,
        exit_code: 1,
    };
    let forward_log = steps_log(advance.forward);
    let closing_log = steps_log(advance.closing);
    log_joins(advance.forward, advance.closing);
    truthful_parts(forward_log, closing_log, history);
    let h1 = history.take(forward_log.len() as int + 1);
    let h2 = history.skip(forward_log.len() as int);
    written_on_the_way(
        before,
        changes,
        advance.forward,
        diverged,
        attempted.len() as int,
        verified.len() as int,
        advance.stopped,
        h1,
        fault,
    );
    plan_leads_to_target(before, target);
    assert(h2[0] == h1.last());
    if advance.stopped is Some {
        assert(closing_log.len() == 0);
        assert(history =~= h1);
    } else {
        one_look_is_true(advance.closing, h2);
        assert(history.last() == h2.last());
        assert forall|k: int| 0 <= k < h2.len() implies on_the_way(
            before,
            changes,
            attempted.len() as int,
            history[0],
            #[trigger] h2[k],
        ) by {
            assert(h2[k] == h2[0]);
            assert(h1[h1.len() - 1] == h2[0]);
        }
        way_joins(
            before,
            changes,
            attempted.len() as int,
            history[0],
            history,
            forward_log.len() as int,
        );
    }
    if obedient_but(forward_log + closing_log, history, fault) && !(0 <= fault < (forward_log
        + closing_log).len()) {
        obedient_parts(forward_log, closing_log, history, fault);
    }
}

spec fn safe(history: Seq<Registers>) -> bool {
    forall|k: int| 0 <= k < history.len() ==> hysteresis(held(#[trigger] history[k]))
}

proof fn way_is_safe(
    before: Seq<u16>,
    after: Seq<u16>,
    count: int,
    first: Registers,
    history: Seq<Registers>,
)
    requires
        before.len() == 4,
        after.len() == 4,
        hysteresis(before),
        hysteresis(after),
        count <= planned(before, after).len(),
        forall|k: int|
            0 <= k < history.len() ==> on_the_way(
                before,
                planned(before, after),
                count,
                first,
                #[trigger] history[k],
            ),
    ensures
        safe(history),
{
    assert forall|k: int| 0 <= k < history.len() implies hysteresis(held(#[trigger] history[k])) by {
        let m = choose|m: int|
            0 <= m <= count && held(history[k]) == #[trigger] carried_out(
                before,
                planned(before, after).take(m),
            );
        plan_keeps_hysteresis(before, after, m);
    }
}

spec fn others_kept(history: Seq<Registers>) -> bool {
    forall|k: int, reg: u16|
        0 <= k < history.len() && !REGS@.contains(reg) ==> #[trigger] history[k][reg]
            == history[0][reg]
}

/// What restoring the state does to a truthful device.
proof fn recovery_is_true(
    before: Seq<u16>,
    attempted: Seq<ChangeView>,
    recovery: Recovery,
    rollback: RollbackView,
    observed_after: Option<Settings>,
    history: Seq<Registers>,
    fault: int,
)
    requires
        before.len() == 4,
        hysteresis(before),
        recovered(before, attempted, recovery, rollback, observed_after),
        truthful(steps_log(recovery.steps()), history),
        hysteresis(held(history[0])),
    ensures
        safe(history),
        others_kept(history),
        rollback.status == "restored"@ <==> held(history.last()) == before,
        observed_after == Some(shown_settings(held(history.last()))),
        ({
            &&& obedient_but(steps_log(recovery.steps()), history, fault)
            &&& !(0 <= fault < steps_log(recovery.steps()).len())
            &&& refusal(before, held(history[0]), attempted) is None
        }) ==> held(history.last()) == before && rollback.error is None,
{
    let current = held(history[0]);
    let a = steps_log(recovery.assessment);
    let b = steps_log(recovery.backward);
    let c = steps_log(recovery.verdict);
    log_joins(recovery.assessment, recovery.backward);
    log_joins(recovery.assessment + recovery.backward, recovery.verdict);
    truthful_parts(a + b, c, history);
    let h1 = history.take((a + b).len() as int + 1);
    let h2 = history.skip((a + b).len() as int);
    truthful_parts(a, b, h1);
    let h11 = h1.take(a.len() as int + 1);
    let h12 = h1.skip(a.len() as int);
    one_look_is_true(recovery.assessment, h11);
    assert(h12[0] == h11.last());
    let changes = planned(current, before);
    if refusal(before, current, attempted) is None {
        written_on_the_way(
            current,
            changes,
            recovery.backward,
            rollback_error("settings changed during rollback"@),
            rollback.attempted.len() as int,
            rollback.verified.len() as int,
            recovery.failure,
            h12,
            fault - a.len(),
        );
        plan_leads_to_target(current, before);
        way_is_safe(current, before, rollback.attempted.len() as int, history[0], h12);
    } else {
        assert(b.len() == 0);
        assert forall|k: int| 0 <= k < h12.len() implies hysteresis(
            held(#[trigger] h12[k]),
        ) && h12[k] == h12[0] by {
            assert(k == 0);
        }
    }
    assert(h2[0] == h12.last());
    assert(h12[h12.len() - 1] == h12.last());
    one_look_is_true(recovery.verdict, h2);
    assert(history.last() == h2.last());
    assert forall|k: int| 0 <= k < history.len() implies hysteresis(held(#[trigger] history[k]))
        && (forall|reg: u16|
        !REGS@.contains(reg) ==> #[trigger] history[k][reg] == history[0][reg]) by {
        if k <= a.len() {
            assert(h11[k] == h11[0]);
        } else if k <= a.len() + b.len() {
            assert(h12[k - a.len()] == history[k]);
        } else {
            assert(h2[k - a.len() - b.len()] == h2[0]);
        }
    }
    statuses_differ();
    if obedient_but(a + b + c, history, fault) && !(0 <= fault < (a + b + c).len()) && refusal(
        before,
        current,
        attempted,
    ) is None {
        obedient_parts(a + b, c, history, fault);
        obedient_parts(a, b, h1, fault);
    }
}

proof fn statuses_differ()
    ensures
        "restored"@ != "incomplete"@,
        "restored"@ != "unknown"@,
        "incomplete"@ != "unknown"@,
        "failed"@ != "applied"@,
        "failed"@ != "unchanged"@,
        "failed"@ != "dry_run"@,
{
    reveal_strlit("restored");
    reveal_strlit("incomplete");
    reveal_strlit("unknown");
    reveal_strlit("failed");
    reveal_strlit("applied");
    reveal_strlit("unchanged");
    reveal_strlit("dry_run");
    assert("restored"@.len() == 8);
    assert("incomplete"@.len() == 10);
    assert("unknown"@.len() == 7);
    assert("failed"@.len() == 6);
    assert("applied"@.len() == 7);
    assert("unchanged"@.len() == 9);
    assert("dry_run"@.len() == 7);
}

/// An update changes what it names and nothing else. Of the control bits it changes at most the
/// one for feedback, to what was asked for.
pub proof fn update_keeps_the_rest(update: Update, before: Seq<u16>)
    requires
        before.len() == 4,
    ensures
        updated(update, before).len() == 4,
        forall|i: int|
            0 <= i < 3 && update.thresholds@[i] is None ==> #[trigger] updated(update, before)[i]
                == before[i],
        forall|i: int|
            0 <= i < 3 && update.thresholds@[i] is Some ==> #[trigger] updated(update, before)[i]
                == update.thresholds@[i]->0,
        (updated(update, before)[3] ^ before[3]) & !HAPTICS == 0,
        update.haptics matches Some(on) ==> feedback(updated(update, before)[3]) == on,
        update.haptics is None ==> updated(update, before)[3] == before[3],
{
    let control = before[3];
    assert((((control & !0x0100u16) | 0x0100u16) ^ control) & !0x0100u16 == 0) by (bit_vector);
    assert((((control & !0x0100u16) | 0u16) ^ control) & !0x0100u16 == 0) by (bit_vector);
    assert((control ^ control) & !0x0100u16 == 0) by (bit_vector);
    assert(((control & !0x0100u16) | 0x0100u16) & 0x0100u16 != 0) by (bit_vector);
    assert(((control & !0x0100u16) | 0u16) & 0x0100u16 == 0) by (bit_vector);
}

/// What carried-out changes leave differs from the start in nothing that none of them names.
proof fn unnamed_stays(start: Seq<u16>, changes: Seq<ChangeView>, index: int)
    requires
        start.len() == 4,
        0 <= index < 4,
        settings_only(changes),
        !touched(changes, index),
    ensures
        carried_out(start, changes).len() == 4,
        carried_out(start, changes)[index] == start[index],
    decreases changes.len(),
{
    if changes.len() > 0 {
        let earlier = changes.drop_last();
        assert(settings_only(earlier)) by {
            assert(forall|i: int| 0 <= i < earlier.len() ==> earlier[i] == changes[i]);
        }
        assert(!touched(earlier, index)) by {
            if touched(earlier, index) {
                let k = choose|k: int|
                    0 <= k < earlier.len() && (#[trigger] earlier[k]).index == index;
                assert(changes[k].index == index);
            }
        }
        assert(changes[changes.len() - 1].index != index);
        unnamed_stays(start, earlier, index);
    }
}

/// On the way of a plan every register holds what it held at one end or the other.
proof fn one_end_or_the_other(before: Seq<u16>, after: Seq<u16>, count: int, index: int)
    requires
        before.len() == 4,
        after.len() == 4,
        0 <= count <= planned(before, after).len(),
        0 <= index < 4,
    ensures
        ({
            let state = carried_out(before, planned(before, after).take(count));
            state[index] == before[index] || state[index] == after[index]
        }),
        carried_out(before, planned(before, after).take(count)).len() == 4,
    decreases count,
{
    let changes = planned(before, after);
    plan_names_what_differs(before, after);
    if count == 0 {
        assert(changes.take(0) =~= seq![]);
    } else {
        one_end_or_the_other(before, after, count - 1, index);
        one_more_change(before, changes, count - 1);
        let change = changes[count - 1];
        assert(change == change_of(change.index, before, after));
    }
}

/// Nothing stands against the way back from a state on the way of the plan.
proof fn way_back_is_free(
    update: Update,
    before: Seq<u16>,
    attempted: Seq<ChangeView>,
    count: int,
)
    requires
        before.len() == 4,
        hysteresis(before),
        hysteresis(updated(update, before)),
        attempted.len() <= planned(before, updated(update, before)).len(),
        attempted == planned(before, updated(update, before)).take(attempted.len() as int),
        0 <= count <= attempted.len(),
    ensures
        refusal(
            before,
            carried_out(before, planned(before, updated(update, before)).take(count)),
            attempted,
        ) is None,
{
    let after = updated(update, before);
    let changes = planned(before, after);
    let done = changes.take(count);
    let current = carried_out(before, done);
    plan_names_what_differs(before, after);
    plan_keeps_hysteresis(before, after, count);
    assert forall|i: int| 0 <= i < 4 && #[trigger] current[i] != before[i] implies touched(
        attempted,
        i,
    ) by {
        assert(settings_only(done));
        if !touched(done, i) {
            unnamed_stays(before, done, i);
        }
        let k = choose|k: int| 0 <= k < done.len() && (#[trigger] done[k]).index == i;
        assert(attempted[k].index == i);
    }
    one_end_or_the_other(before, after, count, 3);
    update_keeps_the_rest(update, before);
    let control = before[3];
    assert((control ^ control) & !0x0100u16 == 0) by (bit_vector);
}

/// What an update does to a truthful device, taken together.
proof fn update_is_true(
    update: Update,
    dry_run: bool,
    run: Run,
    report: ReportView,
    history: Seq<Registers>,
    fault: int,
)
    requires
        applied(update, dry_run, run, Ok(report)),
        truthful(run.log(), history),
    ensures
        target_outcome(update, held(history[0])) == Ok::<Seq<u16>, ErrorView>(
            updated(update, held(history[0])),
        ),
        carried_through(
            held(history[0]),
            updated(update, held(history[0])),
            dry_run,
            run,
            report,
        ),
        safe(history),
        others_kept(history),
        report.observed_after == Some(shown_settings(held(history.last()))),
        report.error is None && !dry_run ==> held(history.last()) == updated(
            update,
            held(history[0]),
        ),
        report.error is Some ==> {
            &&& report.rollback matches Some(rollback) && (rollback.status == "restored"@ <==> held(
                history.last(),
            ) == held(history[0]))
        },
        obedient_but(run.log(), history, fault) && report.error is Some ==> {
            &&& 0 <= fault
            &&& report.rollback->0.error is None
            &&& held(history.last()) == held(history[0])
        },
{
    let before = held(history[0]);
    let target = updated(update, before);
    let a = steps_log(run.opening);
    let b = steps_log(run.advance.steps());
    let c = steps_log(run.recovery.steps());
    run_log(run);
    truthful_parts(a + b, c, history);
    let h1 = history.take((a + b).len() as int + 1);
    let h2 = history.skip((a + b).len() as int);
    truthful_parts(a, b, h1);
    let h11 = h1.take(a.len() as int + 1);
    let h12 = h1.skip(a.len() as int);
    one_look_is_true(run.opening, h11);
    assert(h12[0] == h11.last());
    assert(h2[0] == h12.last());
    let changes = planned(before, target);
    update_keeps_the_rest(update, before);
    plan_leads_to_target(before, target);
    if dry_run || changes.len() == 0 {
        assert(b.len() == 0 && c.len() == 0);
        assert(history =~= h11);
        assert forall|k: int| 0 <= k < history.len() implies #[trigger] history[k]
            == history[0] by {
            assert(h11[k] == h11[0]);
        }
        if !dry_run {
            assert(changes =~= seq![]);
        }
    } else {
        advance_is_true(
            before,
            target,
            run.advance,
            report.attempted,
            report.verified,
            report.error,
            h12,
            fault - a.len(),
        );
        way_is_safe(before, target, report.attempted.len() as int, history[0], h12);
        assert(h12[h12.len() - 1] == h12.last());
        if report.error is Some {
            assert(report.attempted.len() > 0);
            let rollback = report.rollback->0;
            recovery_is_true(
                before,
                report.attempted,
                run.recovery,
                rollback,
                report.observed_after,
                h2,
                fault - a.len() - b.len(),
            );
            assert(on_the_way(
                before,
                changes,
                report.attempted.len() as int,
                history[0],
                h12[h12.len() - 1],
            ));
            let m = choose|m: int|
                0 <= m <= report.attempted.len() && held(h2[0]) == #[trigger] carried_out(
                    before,
                    changes.take(m),
                );
            way_back_is_free(update, before, report.attempted, m);
            if obedient_but(a + b + c, history, fault) {
                obedient_parts(a + b, c, history, fault);
                obedient_parts(a, b, h1, fault);
            }
        } else {
            assert(c.len() == 0);
        }
        assert(history.last() == h2.last());
        assert forall|k: int| 0 <= k < history.len() implies hysteresis(
            held(#[trigger] history[k]),
        ) && (forall|reg: u16|
            !REGS@.contains(reg) ==> #[trigger] history[k][reg] == history[0][reg]) by {
            if k <= a.len() {
                assert(h11[k] == h11[0]);
            } else if k <= a.len() + b.len() {
                assert(h12[k - a.len()] == history[k]);
            } else {
                assert(h2[k - a.len() - b.len()] == history[k]);
                assert(h12[h12.len() - 1] == h2[0]);
            }
        }
    }
}

/// Hysteresis holds at every moment of an update, through failed writes and through recovery, and
/// no register but those of the settings changes: whether a write takes effect or not, and
/// whatever is reported of it, as long as nobody else changes the device and it answers truly.
pub proof fn hysteresis_holds_throughout(
    update: Update,
    dry_run: bool,
    run: Run,
    result: Result<ReportView, ErrorView>,
    history: Seq<Registers>,
)
    requires
        applied(update, dry_run, run, result),
        truthful(run.log(), history),
        hysteresis(held(history[0])),
    ensures
        forall|k: int| 0 <= k < history.len() ==> hysteresis(held(#[trigger] history[k])),
        forall|k: int, reg: u16|
            0 <= k < history.len() && !REGS@.contains(reg) ==> #[trigger] history[k][reg]
                == history[0][reg],
{
    match result {
        Ok(report) => {
            update_is_true(update, dry_run, run, report, history, -1);
        },
        Err(_) => {
            let steps = run.steps();
            if steps.len() == 1 {
                let step = steps[0];
                assert(step == run.opening[0]);
                assert(steps =~= seq![step]);
                one_step_log(step);
                look_is_true(step, history);
            } else {
                assert(steps.len() == 0);
            }
            assert forall|k: int| 0 <= k < history.len() implies #[trigger] history[k]
                == history[0] by {
            }
        },
    }
}

/// A device that does what it is told ends up with exactly the settings that were asked for, and
/// the update is reported as done. Nothing is rolled back.
pub proof fn obedient_device_is_updated(
    update: Update,
    run: Run,
    result: Result<ReportView, ErrorView>,
    history: Seq<Registers>,
)
    requires
        applied(update, false, run, result),
        obedient(run.log(), history),
        target_outcome(update, held(history[0])) is Ok,
    ensures
        result matches Ok(report) && {
            &&& report.error is None
            &&& report.rollback is None
            &&& report.status == if held(history[0]) == updated(update, held(history[0])) {
                "unchanged"@
            } else {
                "applied"@
            }
            &&& report.observed_after == Some(
                shown_settings(updated(update, held(history[0]))),
            )
        },
        held(history.last()) == updated(update, held(history[0])),
{
    let a = steps_log(run.opening);
    let b = steps_log(run.advance.steps());
    let c = steps_log(run.recovery.steps());
    run_log(run);
    truthful_parts(a + b, c, history);
    truthful_parts(a, b, history.take((a + b).len() as int + 1));
    one_look_is_true(
        run.opening,
        history.take((a + b).len() as int + 1).take(a.len() as int + 1),
    );
    let report = result->Ok_0;
    update_is_true(update, false, run, report, history, -1);
    let before = held(history[0]);
    let target = updated(update, before);
    plan_names_what_differs(before, target);
    plan_leads_to_target(before, target);
    if planned(before, target).len() == 0 {
        assert(planned(before, target) =~= seq![]);
    } else {
        assert(before[planned(before, target)[0].index] != target[planned(
            before,
            target,
        )[0].index]);
    }
}

/// Where a single write fails, reported or not, and takes effect or not, the state of before is
/// restored and reported as restored, provided that the device does what it is told otherwise.
pub proof fn failed_write_is_undone(
    update: Update,
    run: Run,
    report: ReportView,
    history: Seq<Registers>,
    fault: int,
)
    requires
        applied(update, false, run, Ok(report)),
        obedient_but(run.log(), history, fault),
        report.error is Some,
    ensures
        report.status == "failed"@,
        report.rollback matches Some(rollback) && {
            &&& rollback.status == "restored"@
            &&& rollback.error is None
        },
        report.observed_after == Some(report.before),
        held(history.last()) == held(history[0]),
{
    update_is_true(update, false, run, report, history, fault);
}

/// A report tells the truth of a truthful device: the settings it names last are those that the
/// device holds, it says `restored` exactly where the state of before is back, and without a
/// failure the settings are those that were asked for.
pub proof fn report_tells_the_truth(
    update: Update,
    dry_run: bool,
    run: Run,
    report: ReportView,
    history: Seq<Registers>,
)
    requires
        applied(update, dry_run, run, Ok(report)),
        truthful(run.log(), history),
    ensures
        report.before == shown_settings(held(history[0])),
        report.observed_after == Some(shown_settings(held(history.last()))),
        report.error is None && !dry_run ==> held(history.last()) == updated(
            update,
            held(history[0]),
        ),
        report.error is Some ==> report.status == "failed"@ && (report.rollback matches Some(rollback)
            && (rollback.status == "restored"@ <==> held(history.last()) == held(history[0]))),
{
    update_is_true(update, dry_run, run, report, history, -1);
}

/// The reports of a record that set parameters, in order.
pub open spec fn writes(log: Seq<Exchange>) -> Seq<Seq<u8>>
    decreases log.len(),
{
    if log.len() == 0 {
        seq![]
    } else if sets(log.last()) {
        writes(log.drop_last()).push(log.last()->Sent_report)
    } else {
        writes(log.drop_last())
    }
}

/// The reports that changes ask for.
pub open spec fn reports(changes: Seq<ChangeView>) -> Seq<Seq<u8>> {
    changes.map_values(|change: ChangeView| write_report(REGS@[change.index], change.after_raw))
}

proof fn writes_join(first: Seq<Exchange>, second: Seq<Exchange>)
    ensures
        writes(first + second) == writes(first) + writes(second),
    decreases second.len(),
{
    if second.len() == 0 {
        assert(first + second =~= first);
        assert(writes(first) + writes(second) =~= writes(first));
    } else {
        let all = first + second;
        assert(all.drop_last() =~= first + second.drop_last());
        assert(all.last() == second.last());
        writes_join(first, second.drop_last());
        assert(writes(all) =~= writes(first) + writes(second));
    }
}

proof fn no_writes(log: Seq<Exchange>)
    requires
        sets_nothing(log),
    ensures
        writes(log) == Seq::<Seq<u8>>::empty(),
    decreases log.len(),
{
    if log.len() > 0 {
        assert(!sets(log[log.len() - 1]));
        let earlier = log.drop_last();
        assert forall|k: int| 0 <= k < earlier.len() implies !sets(#[trigger] earlier[k]) by {
            assert(earlier[k] == log[k]);
        }
        no_writes(earlier);
    }
}

proof fn put_writes_once(step: Step, change: ChangeView)
    requires
        step.is_put(change),
    ensures
        writes(step.log()) == seq![write_report(REGS@[change.index], change.after_raw)],
{
    let log = step.log();
    let report = write_report(REGS@[change.index], change.after_raw);
    let one = log.take(1);
    let rest = log.skip(1);
    assert(log =~= one + rest);
    writes_join(one, rest);
    read_sets_nothing(REGS@[change.index], log.skip(2));
    assert forall|k: int| 0 <= k < rest.len() implies !sets(#[trigger] rest[k]) by {
        if k == 0 {
            assert(rest[0] == log[1]);
        } else {
            assert(rest[k] == log.skip(2)[k - 1]);
        }
    }
    no_writes(rest);
    setting_write_is_no_query(change.index, change.after_raw);
    reveal_with_fuel(writes, 2);
    assert(one.drop_last() =~= seq![]);
    assert(writes(one) =~= seq![report]);
    assert(writes(log) =~= seq![report]);
}

proof fn look_writes_nothing(steps: Seq<Step>)
    requires
        one_look(steps),
    ensures
        writes(steps_log(steps)) == Seq::<Seq<u8>>::empty(),
{
    assert(steps =~= seq![steps[0]]);
    one_step_log(steps[0]);
    look_sets_nothing(steps[0]);
    no_writes(steps[0].log());
}

proof fn made_write_changes(
    start: Seq<u16>,
    changes: Seq<ChangeView>,
    steps: Seq<Step>,
    count: int,
)
    requires
        0 <= count <= changes.len(),
        2 * count <= steps.len(),
        forall|i: int| 0 <= i < count ==> #[trigger] made(start, changes, steps, i),
    ensures
        writes(steps_log(steps.take(2 * count))) == reports(changes.take(count)),
    decreases count,
{
    if count == 0 {
        assert(steps.take(0) =~= seq![]);
        assert(reports(changes.take(0)) =~= seq![]);
    } else {
        let look = steps[2 * count - 2];
        let put = steps[2 * count - 1];
        let earlier = steps.take(2 * (count - 1));
        assert(made(start, changes, steps, count - 1));
        made_write_changes(start, changes, steps, count - 1);
        assert(steps.take(2 * count) =~= earlier + seq![look] + seq![put]);
        log_joins(earlier, seq![look]);
        log_joins(earlier + seq![look], seq![put]);
        one_step_log(put);
        look_writes_nothing(seq![look]);
        put_writes_once(put, changes[count - 1]);
        writes_join(steps_log(earlier), steps_log(seq![look]));
        writes_join(steps_log(earlier) + steps_log(seq![look]), put.log());
        assert(reports(changes.take(count)) =~= reports(changes.take(count - 1)).push(
            write_report(REGS@[changes[count - 1].index], changes[count - 1].after_raw),
        ));
        assert(writes(steps_log(steps.take(2 * count))) =~= reports(changes.take(count)));
    }
}

proof fn attempts_are_written(
    start: Seq<u16>,
    changes: Seq<ChangeView>,
    steps: Seq<Step>,
    diverged: ErrorView,
    attempted: int,
    verified: int,
    failure: Option<ErrorView>,
)
    requires
        written_in_turn(start, changes, steps, diverged, attempted, verified, failure),
    ensures
        0 <= attempted <= changes.len(),
        writes(steps_log(steps)) == reports(changes.take(attempted)),
{
    let rows = steps.take(2 * verified);
    let rest = steps.skip(2 * verified);
    assert(steps =~= rows + rest);
    log_joins(rows, rest);
    writes_join(steps_log(rows), steps_log(rest));
    made_write_changes(start, changes, steps, verified);
    if failure is None {
        assert(rest =~= seq![]);
    } else {
        let look = steps[2 * verified];
        look_writes_nothing(seq![look]);
        if attempted == verified {
            assert(rest =~= seq![look]);
        } else {
            let put = steps[2 * verified + 1];
            assert(rest =~= seq![look] + seq![put]);
            log_joins(seq![look], seq![put]);
            one_step_log(put);
            put_writes_once(put, changes[verified]);
            writes_join(steps_log(seq![look]), put.log());
            assert(reports(changes.take(attempted)) =~= reports(changes.take(verified)).push(
                write_report(REGS@[changes[verified].index], changes[verified].after_raw),
            ));
        }
    }
    assert(writes(steps_log(steps)) =~= reports(changes.take(attempted)));
}

/// A report lists every write that went out, in order: first those of the update, then those of
/// the rollback. Nothing else is ever written.
pub proof fn report_lists_every_write(update: Update, dry_run: bool, run: Run, report: ReportView)
    requires
        applied(update, dry_run, run, Ok(report)),
    ensures
        writes(run.log()) == reports(report.attempted) + (match report.rollback {
            Some(rollback) => reports(rollback.attempted),
            None => seq![],
        }),
{
    let a = steps_log(run.opening);
    let b = steps_log(run.advance.steps());
    let c = steps_log(run.recovery.steps());
    run_log(run);
    writes_join(a, b);
    writes_join(a + b, c);
    look_writes_nothing(run.opening);
    let before = run.opening[0].seen()->Ok_0;
    let target = target_outcome(update, before)->Ok_0;
    let changes = planned(before, target);
    if dry_run || changes.len() == 0 {
        assert(b.len() == 0 && c.len() == 0);
        assert(reports(report.attempted) =~= seq![]);
        assert(writes(run.log()) =~= reports(report.attempted));
    } else {
        let forward = run.advance.forward;
        let closing = run.advance.closing;
        log_joins(forward, closing);
        writes_join(steps_log(forward), steps_log(closing));
        attempts_are_written(
            before,
            changes,
            forward,
            ErrorView {
                kind: "concurrent_change"@,
                message: "settings changed outside this process; stopping"@,
                exit_code: 1,
            },
            report.attempted.len() as int,
            report.verified.len() as int,
            run.advance.stopped,
        );
        if closing.len() == 1 {
            look_writes_nothing(closing);
        }
        assert(writes(b) =~= reports(report.attempted));
        if report.error is None {
            assert(c.len() == 0);
        } else {
            let assessment = run.recovery.assessment;
            let backward = run.recovery.backward;
            let verdict = run.recovery.verdict;
            log_joins(assessment, backward);
            log_joins(assessment + backward, verdict);
            writes_join(steps_log(assessment), steps_log(backward));
            writes_join(steps_log(assessment) + steps_log(backward), steps_log(verdict));
            look_writes_nothing(assessment);
            if report.attempted.len() > 0 {
                look_writes_nothing(verdict);
                let rollback = report.rollback->0;
                if backward.len() > 0 {
                    let current = assessment[0].seen()->Ok_0;
                    attempts_are_written(
                        current,
                        planned(current, before),
                        backward,
                        rollback_error("settings changed during rollback"@),
                        rollback.attempted.len() as int,
                        rollback.verified.len() as int,
                        run.recovery.failure,
                    );
                } else {
                    assert(reports(rollback.attempted) =~= seq![]);
                }
                assert(writes(c) =~= reports(rollback.attempted));
            } else {
                assert(backward.len() == 0 && verdict.len() == 0);
                assert(writes(c) =~= seq![]);
            }
        }
    }
    assert(writes(run.log()) =~= reports(report.attempted) + (match report.rollback {
        Some(rollback) => reports(rollback.attempted),
        None => seq![],
    }));
}

/// An update may be asked for exactly where it names a setting, and every threshold that it names
/// lies within the bounds of its setting.
pub proof fn updates_within_bounds_are_accepted(update: Update)
    ensures
        update_check(update) is Ok <==> {
            &&& update.haptics is Some || exists|i: int|
                0 <= i < 3 && (#[trigger] update.thresholds@[i]) is Some
            &&& forall|i: int|
                0 <= i < 3 ==> ((#[trigger] update.thresholds@[i]) matches Some(value) ==> in_bounds(
                    i,
                    value,
                ))
        },
{
    reveal_with_fuel(first_outside, 4);
    let thresholds = update.thresholds@;
    assert(thresholds[0] is Some || thresholds[1] is Some || thresholds[2] is Some <==> exists|
        i: int,
    |
        0 <= i < 3 && (#[trigger] thresholds[i]) is Some);
    assert(first_outside(thresholds, 0) is None <==> {
        &&& (thresholds[0] matches Some(value) ==> in_bounds(0, value))
        &&& (thresholds[1] matches Some(value) ==> in_bounds(1, value))
        &&& (thresholds[2] matches Some(value) ==> in_bounds(2, value))
    });
}

/// Whatever the device does, a rollback writes only where the state could be read, kept
/// hysteresis, and differed from that of before in nothing but settings that the update had tried
/// to write and, of the control bits, the one for feedback. Changes of others are not overwritten.
pub proof fn rollback_overwrites_only_its_own(
    update: Update,
    dry_run: bool,
    run: Run,
    report: ReportView,
    rollback: RollbackView,
)
    requires
        applied(update, dry_run, run, Ok(report)),
        report.rollback == Some(rollback),
        rollback.attempted.len() > 0,
    ensures
        run.opening[0].seen() matches Ok(before) && (run.recovery.assessment[0].seen() matches Ok(
            current,
        ) && {
            &&& hysteresis(current)
            &&& forall|i: int|
                0 <= i < 4 && #[trigger] current[i] != before[i] ==> touched(report.attempted, i)
            &&& (current[3] ^ before[3]) & !HAPTICS == 0
        }),
{
}

/// Whatever the device does, a rollback is reported as restored only where the state of before was
/// seen again, and as unknown exactly where the state could not be read at the end.
pub proof fn rollback_status_says_what_was_seen(
    update: Update,
    dry_run: bool,
    run: Run,
    report: ReportView,
    rollback: RollbackView,
)
    requires
        applied(update, dry_run, run, Ok(report)),
        report.rollback == Some(rollback),
    ensures
        rollback.status == "restored"@ || rollback.status == "incomplete"@ || rollback.status
            == "unknown"@,
        rollback.status == "restored"@ ==> report.observed_after == Some(report.before),
        rollback.status == "unknown"@ <==> report.observed_after is None,
        rollback.status == "unknown"@ ==> rollback.error is Some,
{
    statuses_differ();
}

/// An update that failed is reported as failed, and the program exits with one, even where the
/// state was restored. Without a failure it exits with zero.
pub proof fn failed_update_exits_with_one(
    update: Update,
    dry_run: bool,
    run: Run,
    report: ReportView,
    device: DeviceView,
    json_output: bool,
    command: Seq<char>,
)
    requires
        applied(update, dry_run, run, Ok(report)),
    ensures
        report.status == "failed"@ <==> report.error is Some,
        change_outcome(device, Ok(report)) matches Ok((data, error)) && {
            &&& error is Some <==> report.error is Some
            &&& data == DataView::Updated { device: compatible(device), report }
            &&& emitted(json_output, command, Some(data), error).exit_code == (if report.error is Some {
                1u8
            } else {
                0u8
            })
        },
{
    statuses_differ();
}

/// Whether a device was opened, and nothing that went through its transport since then set a
/// parameter; `log` is all that went through it by now.
pub open spec fn is_unset(accessed: Seq<Access>, log: Record) -> bool {
    exists|j: int|
        0 <= j < accessed.len() && ((#[trigger] accessed[j]) matches Access::Opened {
            result: Ok(start),
            ..
        } && continues(start, log) && sets_nothing(added(start, log)))
}

/// Whether every device that was closed was left with its parameters as they were when it was
/// opened.
pub open spec fn leaves_unset(accessed: Seq<Access>) -> bool {
    forall|k: int|
        0 <= k < accessed.len() ==> ((#[trigger] accessed[k]) matches Access::Closed { log }
            ==> is_unset(accessed.take(k), log))
}

proof fn unset_goes_on(accessed: Seq<Access>, more: Seq<Access>, log: Record)
    requires
        is_unset(accessed, log),
    ensures
        is_unset(accessed + more, log),
{
    let j = choose|j: int|
        0 <= j < accessed.len() && ((#[trigger] accessed[j]) matches Access::Opened {
            result: Ok(start),
            ..
        } && continues(start, log) && sets_nothing(added(start, log)));
    assert((accessed + more)[j] == accessed[j]);
}

proof fn one_more_access(accessed: Seq<Access>, access: Access)
    requires
        leaves_unset(accessed),
        access matches Access::Closed { log } ==> is_unset(accessed, log),
    ensures
        leaves_unset(accessed.push(access)),
{
    let all = accessed.push(access);
    assert forall|k: int| 0 <= k < all.len() implies ((#[trigger] all[k]) matches Access::Closed {
        log,
    } ==> is_unset(all.take(k), log)) by {
        assert(all.take(k) =~= accessed.take(k));
        if k == accessed.len() {
            assert(accessed.take(k) =~= accessed);
        } else {
            assert(all[k] == accessed[k]);
        }
    }
}

proof fn more_reads_set_nothing(start: Record, log: Record, more: Seq<Exchange>)
    requires
        continues(start, log),
        sets_nothing(added(start, log)),
        sets_nothing(more),
    ensures
        continues(start, log + more),
        sets_nothing(added(start, log + more)),
{
    let all = added(start, log + more);
    assert(all =~= added(start, log) + more);
    assert forall|k: int| 0 <= k < all.len() implies !sets(#[trigger] all[k]) by {
        if k < added(start, log).len() {
            assert(all[k] == added(start, log)[k]);
        } else {
            assert(all[k] == more[k - added(start, log).len()]);
        }
    }
}

/// What the identity checks of a selection leave behind.
proof fn visits_leave_unset(visits: Seq<Visit>)
    requires
        forall|i: int|
            0 <= i < visits.len() ==> ((#[trigger] visits[i]).opened is Ok ==> is_identity_check(
                visits[i].reads,
            )),
    ensures
        leaves_unset(visit_accesses(visits)),
        forall|i: int|
            0 <= i < visits.len() && (#[trigger] visits[i]).opened is Ok ==> is_unset(
                visit_accesses(visits),
                visits[i].left(),
            ),
    decreases visits.len(),
{
    if visits.len() > 0 {
        let earlier = visits.drop_last();
        let last = visits.last();
        assert forall|i: int| 0 <= i < earlier.len() implies ((#[trigger] earlier[i]).opened is Ok
            ==> is_identity_check(earlier[i].reads)) by {
            assert(earlier[i] == visits[i]);
        }
        visits_leave_unset(earlier);
        let before = visit_accesses(earlier);
        let access = Access::Opened { device: last.device, result: last.opened };
        let opened = before.push(access);
        one_more_access(before, access);
        if last.opened is Ok {
            assert(visits[visits.len() - 1] == last);
            identity_check_sets_nothing(last.reads);
            let start = last.opened->Ok_0;
            assert(added(start, last.left()) =~= joined(last.reads));
            assert(opened[opened.len() - 1] == access);
            assert(is_unset(opened, last.left()));
            one_more_access(opened, Access::Closed { log: last.left() });
            unset_goes_on(opened, seq![Access::Closed { log: last.left() }], last.left());
        }
        let all = visit_accesses(visits);
        assert(all =~= if last.opened is Ok && !(last.probe() is Compatible) {
            opened.push(Access::Closed { log: last.left() })
        } else {
            opened
        });
        assert(opened + seq![Access::Closed { log: last.left() }] =~= opened.push(
            Access::Closed { log: last.left() },
        ));
        assert forall|i: int| 0 <= i < visits.len() && (#[trigger] visits[i]).opened is Ok implies is_unset(
            all,
            visits[i].left(),
        ) by {
            if i < earlier.len() {
                assert(earlier[i] == visits[i]);
                unset_goes_on(before, last.accesses(), visits[i].left());
            }
        }
    }
}

proof fn closings_leave_unset(visits: Seq<Visit>, accessed: Seq<Access>)
    requires
        leaves_unset(accessed),
        forall|i: int|
            0 <= i < visits.len() && (#[trigger] visits[i]).opened is Ok ==> is_unset(
                accessed,
                visits[i].left(),
            ),
    ensures
        leaves_unset(accessed + closings(visits)),
    decreases visits.len(),
{
    if visits.len() == 0 {
        assert(accessed + closings(visits) =~= accessed);
    } else {
        let earlier = visits.drop_last();
        let last = visits.last();
        assert forall|i: int| 0 <= i < earlier.len() && (#[trigger] earlier[i]).opened is Ok implies is_unset(
            accessed,
            earlier[i].left(),
        ) by {
            assert(earlier[i] == visits[i]);
        }
        closings_leave_unset(earlier, accessed);
        if last.probe() is Compatible {
            let before = accessed + closings(earlier);
            let access = Access::Closed { log: last.left() };
            assert(visits[visits.len() - 1] == last);
            unset_goes_on(accessed, closings(earlier), last.left());
            one_more_access(before, access);
            assert(accessed + closings(visits) =~= before.push(access));
        }
    }
}

/// Selecting a device sets no parameter of any: those that are closed again were only asked for
/// their identity, and so was the one that is chosen.
pub proof fn selection_sets_nothing<T: FeatureIo, F: Fn(&Device) -> Result<Protocol<T>, Error>>(
    devices: Seq<DeviceView>,
    selector: Option<Seq<char>>,
    resolved: Option<Result<String, OsError>>,
    function: F,
    accessed: Seq<Access>,
    selected: Result<Chosen, ErrorView>,
)
    requires
        is_selection(devices, selector, resolved, function, accessed, selected),
    ensures
        leaves_unset(accessed),
        selected matches Ok(chosen) ==> is_unset(accessed, chosen.left),
{
    if let Ok(candidates) = candidates_outcome(devices, selector, resolved) {
        let visits = tour_of(devices, selector, resolved, function, accessed, selected);
        assert forall|i: int| 0 <= i < visits.len() implies ((#[trigger] visits[i]).opened is Ok
            ==> is_identity_check(visits[i].reads)) by {
            assert(is_visit_of(function, candidates[i], visits[i]));
        }
        visits_leave_unset(visits);
        closings_leave_unset(visits, visit_accesses(visits));
        let probes = visit_probes(visits);
        if let Ok(place) = conclusion(candidates, selector is Some, probes) {
            chosen_device_is_the_only_one(candidates, selector is Some, probes, place);
            assert(probes[place] == visits[place].probe());
        }
    }
}

/// A command that lists, reads or only plans sets no parameter of any device, and neither does one
/// that is refused.
pub proof fn only_updates_set_parameters<
    T: FeatureIo,
    F: Fn(&Device) -> Result<Protocol<T>, Error>,
>(
    command: Command,
    listing: Listing,
    resolved: Option<Result<String, OsError>>,
    function: F,
    accessed: Seq<Access>,
    result: Result<(DataView, Option<ErrorView>), ErrorView>,
)
    requires
        is_execution(command, listing, resolved, function, accessed, result),
        (command matches Command::Change { dry_run, .. } ==> dry_run) || result is Err,
    ensures
        leaves_unset(accessed),
{
    if preflight_outcome(command) is Ok && discovered(listing) is Ok && !(command is List) {
        let devices = discovered(listing)->Ok_0;
        let (found, selected) = choose|found: Seq<Access>, selected: Result<Chosen, ErrorView>|
            {
                &&& #[trigger] is_selection(
                    devices,
                    given_selector(command),
                    resolved,
                    function,
                    found,
                    selected,
                )
                &&& is_work(command, found, selected, accessed, result)
            };
        selection_sets_nothing(
            devices,
            given_selector(command),
            resolved,
            function,
            found,
            selected,
        );
        if let Ok(chosen) = selected {
            let log = choose|log: Seq<Exchange>| #[trigger]
                comes_to(command, chosen.device, log, result) && accessed == found.push(
                    Access::Closed { log: chosen.left + log },
                );
            match command {
                Command::Change { dry_run, update, .. } => {
                    let (run, report) = choose|run: Run, report: Result<ReportView, ErrorView>|
                        {
                            &&& log == #[trigger] run.log()
                            &&& #[trigger] applied(update, dry_run, run, report)
                            &&& result == change_outcome(chosen.device, report)
                        };
                    nothing_is_set_without_need(update, dry_run, run, report);
                },
                _ => {
                    let reads = choose|reads: Seq<Seq<Exchange>>|
                        {
                            &&& log == #[trigger] joined(reads)
                            &&& is_snapshot(reads)
                            &&& result == reading(chosen.device, snapshot_outcome(reads))
                        };
                    reading_sets_nothing(reads);
                },
            }
            let j = choose|j: int|
                0 <= j < found.len() && ((#[trigger] found[j]) matches Access::Opened {
                    result: Ok(start),
                    ..
                } && continues(start, chosen.left) && sets_nothing(added(start, chosen.left)));
            more_reads_set_nothing(found[j]->result->Ok_0, chosen.left, log);
            assert(is_unset(found, chosen.left + log));
            one_more_access(found, Access::Closed { log: chosen.left + log });
        }
    }
}

/// How many of the devices that were opened have not been closed again.
pub open spec fn open_count(accessed: Seq<Access>) -> int
    decreases accessed.len(),
{
    if accessed.len() == 0 {
        0
    } else {
        open_count(accessed.drop_last()) + match accessed.last() {
            Access::Opened { result: Ok(_), .. } => 1int,
            Access::Opened { result: Err(_), .. } => 0int,
            Access::Closed { .. } => -1int,
        }
    }
}

proof fn counts_join(first: Seq<Access>, second: Seq<Access>)
    ensures
        open_count(first + second) == open_count(first) + open_count(second),
    decreases second.len(),
{
    let all = first + second;
    if second.len() == 0 {
        assert(all =~= first);
    } else {
        assert(all.drop_last() =~= first + second.drop_last());
        counts_join(first, second.drop_last());
    }
}

proof fn visits_keep_compatible_open(visits: Seq<Visit>)
    ensures
        open_count(visit_accesses(visits)) == compatible_count(visit_probes(visits)),
        open_count(closings(visits)) == -compatible_count(visit_probes(visits)),
    decreases visits.len(),
{
    let probes = visit_probes(visits);
    if visits.len() > 0 {
        let earlier = visits.drop_last();
        let last = visits.last();
        visits_keep_compatible_open(earlier);
        assert(probes.drop_last() =~= visit_probes(earlier));
        assert(probes.last() == last.probe());
        counts_join(visit_accesses(earlier), last.accesses());
        reveal_with_fuel(open_count, 3);
        let one = seq![Access::Opened { device: last.device, result: last.opened }];
        assert(one.drop_last() =~= seq![]);
        assert(one.push(Access::Closed { log: last.left() }).drop_last() =~= one);
        if last.probe() is Compatible {
            assert(closings(visits).drop_last() =~= closings(earlier));
        }
    }
}

/// A selection leaves nothing open but the device that it chose.
pub proof fn only_the_chosen_device_stays_open<
    T: FeatureIo,
    F: Fn(&Device) -> Result<Protocol<T>, Error>,
>(
    devices: Seq<DeviceView>,
    selector: Option<Seq<char>>,
    resolved: Option<Result<String, OsError>>,
    function: F,
    accessed: Seq<Access>,
    selected: Result<Chosen, ErrorView>,
)
    requires
        is_selection(devices, selector, resolved, function, accessed, selected),
    ensures
        open_count(accessed) == (if selected is Ok {
            1int
        } else {
            0int
        }),
{
    if candidates_outcome(devices, selector, resolved) is Ok {
        let visits = tour_of(devices, selector, resolved, function, accessed, selected);
        visits_keep_compatible_open(visits);
        counts_join(visit_accesses(visits), closings(visits));
    }
}

/// A command leaves nothing open.
pub proof fn command_leaves_nothing_open<
    T: FeatureIo,
    F: Fn(&Device) -> Result<Protocol<T>, Error>,
>(
    command: Command,
    listing: Listing,
    resolved: Option<Result<String, OsError>>,
    function: F,
    accessed: Seq<Access>,
    result: Result<(DataView, Option<ErrorView>), ErrorView>,
)
    requires
        is_execution(command, listing, resolved, function, accessed, result),
    ensures
        open_count(accessed) == 0,
{
    if preflight_outcome(command) is Ok && discovered(listing) is Ok && !(command is List) {
        let devices = discovered(listing)->Ok_0;
        let (found, selected) = choose|found: Seq<Access>, selected: Result<Chosen, ErrorView>|
            {
                &&& #[trigger] is_selection(
                    devices,
                    given_selector(command),
                    resolved,
                    function,
                    found,
                    selected,
                )
                &&& is_work(command, found, selected, accessed, result)
            };
        only_the_chosen_device_stays_open(
            devices,
            given_selector(command),
            resolved,
            function,
            found,
            selected,
        );
        if selected is Ok {
            assert(accessed.drop_last() =~= found);
        }
    }
}

/// A request that is refused, and one that only lists, open and ask no device.
pub proof fn refused_request_opens_nothing<
    T: FeatureIo,
    F: Fn(&Device) -> Result<Protocol<T>, Error>,
>(
    command: Command,
    listing: Listing,
    resolved: Option<Result<String, OsError>>,
    function: F,
    accessed: Seq<Access>,
    result: Result<(DataView, Option<ErrorView>), ErrorView>,
)
    requires
        is_execution(command, listing, resolved, function, accessed, result),
        preflight_outcome(command) is Err || command is List,
    ensures
        accessed == Seq::<Access>::empty(),
{
}

} // verus!
