//! What holds of reports, of the replies to them, and of the failures that come of both.
use vstd::prelude::*;

use crate::error::{ErrorView, OsError, OsErrorKind};
use crate::protocol::{
    blank_report, counted, decoded, identity_outcome, is_identity_check, is_read, is_write,
    length_check, query_report, read_outcome, write_outcome, write_report, Exchange,
};

verus! {

/// The number that two bytes stand for, the low one first.
pub open spec fn word(low: u8, high: u8) -> int {
    low as int + 256 * high as int
}

/// A query is report 13, the bytes 5 and 3, and the register. A write is report 13, the register
/// and the value. Both are little-endian and five bytes long, and a reply is fetched into report
/// 13 with zeros.
pub proof fn reports_are_laid_out(reg: u16, value: u16)
    ensures
        query_report(reg).len() == 5,
        query_report(reg)[0] == 13,
        query_report(reg)[1] == 5,
        query_report(reg)[2] == 3,
        word(query_report(reg)[3], query_report(reg)[4]) == reg,
        write_report(reg, value).len() == 5,
        write_report(reg, value)[0] == 13,
        word(write_report(reg, value)[1], write_report(reg, value)[2]) == reg,
        word(write_report(reg, value)[3], write_report(reg, value)[4]) == value,
        blank_report() == seq![13u8, 0u8, 0u8, 0u8, 0u8],
{
    assert(blank_report() =~= seq![13u8, 0u8, 0u8, 0u8, 0u8]);
}

/// Whether bytes are a whole report that repeats a register and gives it a value.
pub open spec fn echoes(bytes: Seq<u8>, reg: u16, value: u16) -> bool {
    &&& bytes.len() == 5
    &&& bytes[0] == 13
    &&& word(bytes[1], bytes[2]) == reg
    &&& word(bytes[3], bytes[4]) == value
}

/// A reply is taken for a value exactly where it is five bytes long, of report 13, repeats both
/// bytes of the register, and gives the value. Any other is a failure of the protocol.
pub proof fn only_an_echo_is_decoded(reg: u16, bytes: Seq<u8>, count: usize, value: u16)
    ensures
        decoded(reg, bytes, count) == Ok::<u16, ErrorView>(value) <==> count == 5 && echoes(
            bytes,
            reg,
            value,
        ),
        decoded(reg, bytes, count) matches Err(error) ==> error.kind == "protocol"@
            && error.exit_code == 1,
{
    if bytes.len() == 5 {
        let head = bytes.take(3);
        assert(head.len() == 3 && head[0] == bytes[0] && head[1] == bytes[1] && head[2]
            == bytes[2]);
        let expected = seq![13u8, (reg % 256) as u8, (reg / 256) as u8];
        assert(head == expected <==> head[0] == expected[0] && head[1] == expected[1] && head[2]
            == expected[2]) by {
            if head[0] == expected[0] && head[1] == expected[1] && head[2] == expected[2] {
                assert(head =~= expected);
            }
        }
    }
}

/// A count of bytes is taken only where it is five.
pub proof fn only_five_bytes_are_a_report(count: usize, operation: Seq<char>)
    ensures
        length_check(count, operation) is Ok <==> count == 5,
        length_check(count, operation) matches Err(error) ==> error.kind == "protocol"@
            && error.exit_code == 1,
{
}

/// What a read sends and fetches: one query of the register and, exactly where all five bytes of
/// it went out, one fetch of the reply.
pub proof fn read_is_a_query_and_a_fetch(reg: u16, log: Seq<Exchange>)
    requires
        is_read(reg, log),
    ensures
        log[0] matches Exchange::Sent { report, reply } && {
            &&& report.len() == 5
            &&& report[0] == 13 && report[1] == 5 && report[2] == 3
            &&& word(report[3], report[4]) == reg
            &&& log.len() == (if reply == Ok::<usize, ErrorView>(5) {
                2int
            } else {
                1int
            })
        },
        log.len() == 2 ==> (log[1] matches Exchange::Fetched { report, filled, .. } && report
            == seq![13u8, 0u8, 0u8, 0u8, 0u8] && filled.len() == 5),
{
    reports_are_laid_out(reg, 0);
}

/// A read gives a value exactly where the query and the fetch each came to five bytes and what was
/// fetched repeats the register and gives that value.
pub proof fn read_gives_what_was_fetched(reg: u16, log: Seq<Exchange>, value: u16)
    requires
        is_read(reg, log),
    ensures
        read_outcome(reg, log) == Ok::<u16, ErrorView>(value) <==> {
            &&& log.len() == 2
            &&& log[1] matches Exchange::Fetched { filled, reply, .. } && {
                &&& reply == Ok::<usize, ErrorView>(5)
                &&& echoes(filled, reg, value)
            }
        },
{
    if log.len() == 2 {
        let filled = log[1]->filled;
        assert(filled.take(5) =~= filled);
        only_an_echo_is_decoded(reg, filled, 5, value);
        if let Ok(count) = log[1]->Fetched_reply {
            let end: int = if count < 5 {
                count as int
            } else {
                5
            };
            only_an_echo_is_decoded(reg, filled.take(end), count, value);
        }
    }
}

/// Whether a failure is another one, told with its circumstances in front.
pub open spec fn tells(told: ErrorView, error: ErrorView) -> bool {
    &&& told.kind == error.kind
    &&& told.exit_code == error.exit_code
    &&& exists|context: Seq<char>| told.message == #[trigger] (context + ": "@) + error.message
}

/// A failure of the transport in a read is handed on: its kind and its exit code stay, and its
/// message stays at the end.
pub proof fn transport_failure_is_handed_on(reg: u16, log: Seq<Exchange>, error: ErrorView)
    requires
        is_read(reg, log),
        log[0]->Sent_reply == Err::<usize, ErrorView>(error) || log.len() == 2
            && log[1]->Fetched_reply == Err::<usize, ErrorView>(error),
    ensures
        read_outcome(reg, log) matches Err(told) && tells(told, error),
{
    let told = read_outcome(reg, log)->Err_0;
    let message = if log.len() == 1 {
        "query request "@ + crate::protocol::shown(reg)
    } else {
        "query response "@ + crate::protocol::shown(reg)
    };
    assert(told.message == (message + ": "@) + error.message);
}

/// A verified write sends one report with the register and the value, gives the device time, and
/// then reads the same register, whatever was reported of the write.
pub proof fn write_is_read_back(reg: u16, value: u16, log: Seq<Exchange>)
    requires
        is_write(reg, value, log),
    ensures
        log[0] matches Exchange::Sent { report, .. } && {
            &&& report.len() == 5
            &&& report[0] == 13
            &&& word(report[1], report[2]) == reg
            &&& word(report[3], report[4]) == value
        },
        log[1] is Settled,
        log.len() > 2,
        is_read(reg, log.skip(2)),
{
    reports_are_laid_out(reg, value);
}

/// A verified write succeeds exactly where all five bytes went out and the register was read back
/// with the value. Otherwise it fails: as the transport did, as the protocol where the count was
/// wrong, as the readback did, or as a failed verification where another value was read.
pub proof fn write_succeeds_where_read_back(reg: u16, value: u16, log: Seq<Exchange>)
    requires
        is_write(reg, value, log),
    ensures
        write_outcome(reg, value, log) is Ok <==> log[0]->Sent_reply == Ok::<usize, ErrorView>(5)
            && read_outcome(reg, log.skip(2)) == Ok::<u16, ErrorView>(value),
        log[0]->Sent_reply matches Err(error) ==> (write_outcome(reg, value, log) matches Err(told)
            && tells(told, error)),
        log[0]->Sent_reply matches Ok(count) ==> count != 5 ==> (write_outcome(
            reg,
            value,
            log,
        ) matches Err(told) && told.kind == "protocol"@ && told.exit_code == 1),
        log[0]->Sent_reply == Ok::<usize, ErrorView>(5) ==> (match read_outcome(reg, log.skip(2)) {
            Err(error) => write_outcome(reg, value, log) == Err::<(), ErrorView>(error),
            Ok(found) => found != value ==> (write_outcome(reg, value, log) matches Err(told)
                && told.kind == "verification"@ && told.exit_code == 1),
        }),
{
    if let Err(error) = log[0]->Sent_reply {
        let context = "write "@ + crate::protocol::shown(reg) + "="@ + crate::text::decimal(
            value as nat,
        );
        let told = write_outcome(reg, value, log)->Err_0;
        assert(told.message == (context + ": "@) + error.message);
    }
}

/// An identity check reads register 0x0101 and then 0x0103, and succeeds exactly where they hold
/// 0x0130 and 0x1300. Any other pair of values is unsupported; a read that fails is the failure of
/// the check.
pub proof fn identity_is_both_values(reads: Seq<Seq<Exchange>>)
    requires
        is_identity_check(reads),
    ensures
        is_read(0x0101, reads[0]),
        reads.len() == 2 <==> read_outcome(0x0101, reads[0]) is Ok,
        reads.len() == 2 ==> is_read(0x0103, reads[1]),
        identity_outcome(reads) is Ok <==> read_outcome(0x0101, reads[0]) == Ok::<u16, ErrorView>(
            0x0130,
        ) && read_outcome(0x0103, reads[1]) == Ok::<u16, ErrorView>(0x1300),
        read_outcome(0x0101, reads[0]) matches Err(error) ==> identity_outcome(reads) == Err::<
            (),
            ErrorView,
        >(error),
        reads.len() == 2 ==> (read_outcome(0x0103, reads[1]) matches Err(error)
            ==> identity_outcome(reads) == Err::<(), ErrorView>(error)),
        reads.len() == 2 && read_outcome(0x0103, reads[1]) is Ok ==> (identity_outcome(
            reads,
        ) matches Err(error) ==> error.kind == "unsupported"@ && error.exit_code == 5),
{
}

/// A count that is not negative is taken as it is; a negative one is a failure of the system.
pub proof fn negative_counts_are_failures(count: i32, error: OsError)
    ensures
        count >= 0 ==> counted(count, error) == Ok::<usize, ErrorView>(count as usize),
        count < 0 ==> (counted(count, error) matches Err(told) && told.exit_code == 1
            && told.message == "hidraw feature report"@ + ": "@ + error.detail@ && told.kind == (
        if error.kind is PermissionDenied {
            "permission"@
        } else {
            "io"@
        })),
{
}

/// Each kind of failure has its exit code. A failure of the system is one of permission exactly
/// where permission was denied, and tells what was being done and what the system said.
pub proof fn failures_have_their_exit_codes(
    message: Seq<char>,
    kind: OsErrorKind,
    detail: Seq<char>,
    error: ErrorView,
)
    ensures
        ErrorView::invalid(message).exit_code == 2,
        ErrorView::invalid(message).kind == "invalid_request"@,
        ErrorView::protocol(message).exit_code == 1,
        ErrorView::protocol(message).kind == "protocol"@,
        ErrorView::unsupported(message).exit_code == 5,
        ErrorView::unsupported(message).kind == "unsupported"@,
        ErrorView::invalid(message).message == message,
        ErrorView::protocol(message).message == message,
        ErrorView::unsupported(message).message == message,
        ErrorView::io(message, kind, detail).exit_code == 1,
        ErrorView::io(message, kind, detail).kind == (if kind == OsErrorKind::PermissionDenied {
            "permission"@
        } else {
            "io"@
        }),
        ErrorView::io(message, kind, detail).message == message + ": "@ + detail,
        error.context(message).kind == error.kind,
        error.context(message).exit_code == error.exit_code,
        error.context(message).message == message + ": "@ + error.message,
{
}

} // verus!
