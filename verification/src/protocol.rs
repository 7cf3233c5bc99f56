//! The feature reports by which registers are read and written.
use vstd::prelude::*;
use vstd::slice::slice_subrange;
use vstd::string::StringExecFns;

use crate::error::{outcome, Error, ErrorView, OsError};
use crate::text::{decimal, decimal_text, hex, hex_text};

verus! {

/// The report that carries every request and every reply.
pub const REPORT: u8 = 0x0d;

/// How long a device is left alone after a parameter write, in milliseconds.
pub const SETTLE_MILLIS: u64 = 1;

/// The registers that identify the protocol, and the values they must hold.
pub const FIRST_IDENTITY: u16 = 0x0101;

pub const SECOND_IDENTITY: u16 = 0x0103;

pub const FIRST_EXPECTED: u16 = 0x0130;

pub const SECOND_EXPECTED: u16 = 0x1300;

/// One exchange with a device, with what the transport made of it.
pub enum Exchange {
    /// A report was sent.
    Sent { report: Seq<u8>, reply: Result<usize, ErrorView> },
    /// A report was asked for: the buffer as handed over, and as it came back.
    Fetched { report: Seq<u8>, filled: Seq<u8>, reply: Result<usize, ErrorView> },
    /// The device was left time to settle.
    Settled,
}

/// All that went through a transport, in order.
pub type Record = Seq<Exchange>;

/// A transport for feature reports.
///
/// `exchanges` is the record of all that went through the transport so far. It exists in proofs
/// only: a transport never has to keep it. Every call adds one entry: what it was handed and what
/// it gave back. Nothing is promised about the replies.
pub trait FeatureIo {
    spec fn exchanges(&self) -> Record;

    /// Sends a report; returns the number of bytes sent.
    fn set_feature(&mut self, report: &mut [u8; 5]) -> (count: Result<usize, Error>)
        ensures
            final(self).exchanges() == old(self).exchanges().push(
                Exchange::Sent { report: old(report)@, reply: outcome(count) },
            ),
    ;

    /// Fetches a report into the buffer; returns the number of bytes fetched.
    fn get_feature(&mut self, report: &mut [u8; 5]) -> (count: Result<usize, Error>)
        ensures
            final(self).exchanges() == old(self).exchanges().push(
                Exchange::Fetched {
                    report: old(report)@,
                    filled: final(report)@,
                    reply: outcome(count),
                },
            ),
    ;

    /// Gives the device [`SETTLE_MILLIS`] to take a parameter write in.
    fn settle(&mut self)
        ensures
            final(self).exchanges() == old(self).exchanges().push(Exchange::Settled),
    ;
}

/// The register protocol over a transport.
pub struct Protocol<T>(pub T);

pub open spec fn low(n: u16) -> u8 {
    (n % 256) as u8
}

pub open spec fn high(n: u16) -> u8 {
    (n / 256) as u8
}

/// The number that two bytes stand for, the low one first.
pub open spec fn little_endian(low: u8, high: u8) -> u16 {
    (low + 256 * high) as u16
}

/// The report that selects a register for reading. It sets no parameter.
pub open spec fn query_report(reg: u16) -> Seq<u8> {
    seq![REPORT, 5, 3, low(reg), high(reg)]
}

/// The report that sets a register.
pub open spec fn write_report(reg: u16, value: u16) -> Seq<u8> {
    seq![REPORT, low(reg), high(reg), low(value), high(value)]
}

/// The buffer handed over to fetch a reply.
pub open spec fn blank_report() -> Seq<u8> {
    seq![REPORT, 0, 0, 0, 0]
}

/// The reply that gives the value of a register.
pub open spec fn answer_report(reg: u16, value: u16) -> Seq<u8> {
    seq![REPORT, low(reg), high(reg), low(value), high(value)]
}

/// A register as messages show it.
pub open spec fn shown(reg: u16) -> Seq<char> {
    "0x"@ + hex(reg as nat, 4)
}

/// Bytes as messages show them.
pub open spec fn shown_bytes(bytes: Seq<u8>) -> Seq<char> {
    "["@ + listed(bytes) + "]"@
}

pub open spec fn listed(bytes: Seq<u8>) -> Seq<char>
    decreases bytes.len(),
{
    if bytes.len() == 0 {
        seq![]
    } else if bytes.len() == 1 {
        hex(bytes[0] as nat, 2)
    } else {
        listed(bytes.drop_last()) + ", "@ + hex(bytes.last() as nat, 2)
    }
}

/// A report has five bytes: no other count is taken.
pub open spec fn length_check(count: usize, operation: Seq<char>) -> Result<(), ErrorView> {
    if count == 5 {
        Ok(())
    } else {
        Err(
            ErrorView::protocol(
                operation + ": expected 5 bytes, got "@ + decimal(count as nat),
            ),
        )
    }
}

/// What a reply of `count` bytes says of a register. It must be a whole report that repeats the
/// report number and both bytes of the register.
pub open spec fn decoded(reg: u16, bytes: Seq<u8>, count: usize) -> Result<u16, ErrorView> {
    if count != 5 {
        Err(length_check(count, "query response"@)->Err_0)
    } else if bytes.len() != 5 || bytes.take(3) != seq![REPORT, low(reg), high(reg)] {
        Err(
            ErrorView::protocol(
                "invalid report/register echo for "@ + shown(reg) + ": "@ + shown_bytes(bytes),
            ),
        )
    } else {
        Ok(little_endian(bytes[3], bytes[4]))
    }
}

fn shown_text(reg: u16) -> (text: String)
    ensures
        text@ == shown(reg),
{
    String::from_str("0x").concat(hex_text(reg as u32, 4).as_str())
}

fn shown_bytes_text(bytes: &[u8]) -> (text: String)
    ensures
        text@ == shown_bytes(bytes@),
{
    let mut inner = String::new();
    let mut i: usize = 0;
    assert(bytes@.take(0) =~= Seq::<u8>::empty());
    while i < bytes.len()
        invariant
            i <= bytes@.len(),
            inner@ == listed(bytes@.take(i as int)),
        decreases bytes@.len() - i,
    {
        let ghost longer = bytes@.take(i + 1);
        assert(longer.drop_last() =~= bytes@.take(i as int));
        if i > 0 {
            inner.append(", ");
        }
        inner.append(hex_text(bytes[i] as u32, 2).as_str());
        assert(inner@ =~= listed(longer));
        i = i + 1;
    }
    assert(bytes@.take(i as int) =~= bytes@);
    String::from_str("[").concat(inner.as_str()).concat("]")
}

/// Takes a count of bytes only where it is that of a whole report.
pub fn exact_length(count: usize, operation: &str) -> (checked: Result<(), Error>)
    ensures
        outcome(checked) == length_check(count, operation@),
{
    if count != 5 {
        let message = String::from_str(operation).concat(": expected 5 bytes, got ").concat(
            decimal_text(count as u64).as_str(),
        );
        return Err(Error::protocol(message.as_str()));
    }
    Ok(())
}

/// Reads the value of a register out of a reply.
pub fn decode(reg: u16, bytes: &[u8], count: usize) -> (value: Result<u16, Error>)
    ensures
        outcome(value) == decoded(reg, bytes@, count),
{
    match exact_length(count, "query response") {
        Ok(()) => {},
        Err(error) => {
            return Err(error);
        },
    }
    let lo: u8 = (reg % 256) as u8;
    let hi: u8 = (reg / 256) as u8;
    if bytes.len() != 5 || bytes[0] != REPORT || bytes[1] != lo || bytes[2] != hi {
        assert(bytes@.len() == 5 ==> bytes@.take(3) != seq![REPORT, low(reg), high(reg)]) by {
            if bytes@.len() == 5 {
                let head = bytes@.take(3);
                let expected = seq![REPORT, low(reg), high(reg)];
                assert(head[0] != expected[0] || head[1] != expected[1] || head[2] != expected[2]);
            }
        }
        let message = String::from_str("invalid report/register echo for ").concat(
            shown_text(reg).as_str(),
        ).concat(": ").concat(shown_bytes_text(bytes).as_str());
        return Err(Error::protocol(message.as_str()));
    }
    assert(bytes@.take(3) =~= seq![REPORT, low(reg), high(reg)]);
    Ok(bytes[3] as u16 + 256 * bytes[4] as u16)
}

/// What the system's answer to a feature report comes to: a negative count stands for a failure.
pub open spec fn counted(count: i32, error: OsError) -> Result<usize, ErrorView> {
    if count < 0 {
        Err(ErrorView::io("hidraw feature report"@, error.kind, error.detail@))
    } else {
        Ok(count as usize)
    }
}

/// Takes the system's answer to a feature report; `error` is the last error of the system.
pub fn feature_count(count: i32, error: &OsError) -> (taken: Result<usize, Error>)
    ensures
        outcome(taken) == counted(count, *error),
{
    if count < 0 {
        return Err(Error::io("hidraw feature report", error));
    }
    Ok(count as usize)
}

/// Whether a record continues an earlier one.
pub open spec fn continues(before: Seq<Exchange>, after: Seq<Exchange>) -> bool {
    before.is_prefix_of(after)
}

/// What a record holds beyond an earlier one.
pub open spec fn added(before: Seq<Exchange>, after: Seq<Exchange>) -> Seq<Exchange> {
    after.skip(before.len() as int)
}

/// A record that was added to holds what it held before, and then what was added.
pub proof fn added_joins(before: Seq<Exchange>, part: Seq<Exchange>)
    ensures
        continues(before, before + part),
        added(before, before + part) == part,
{
    assert(added(before, before + part) =~= part);
}

/// What is added in two steps is what each of them adds.
pub proof fn added_in_turn(first: Seq<Exchange>, second: Seq<Exchange>, third: Seq<Exchange>)
    requires
        continues(first, second),
        continues(second, third),
    ensures
        continues(first, third),
        added(first, third) == added(first, second) + added(second, third),
{
    assert(added(first, third) =~= added(first, second) + added(second, third));
}

/// Whether `log` is what reading a register leaves in the record: the query and, where that was
/// sent whole, the fetch of the reply.
pub open spec fn is_read(reg: u16, log: Seq<Exchange>) -> bool {
    &&& log.len() > 0
    &&& log[0] matches Exchange::Sent { report, reply } && {
        &&& report == query_report(reg)
        &&& if reply == Ok::<usize, ErrorView>(5) {
            &&& log.len() == 2
            &&& log[1] matches Exchange::Fetched { report: buffer, filled, .. } && buffer
                == blank_report() && filled.len() == 5
        } else {
            log.len() == 1
        }
    }
}

/// What reading a register comes to, going by the record of it.
pub open spec fn read_outcome(reg: u16, log: Seq<Exchange>) -> Result<u16, ErrorView> {
    match log[0] {
        Exchange::Sent { reply: Err(error), .. } => Err(
            error.context("query request "@ + shown(reg)),
        ),
        Exchange::Sent { reply: Ok(count), .. } if count != 5 => Err(
            length_check(count, "query"@)->Err_0,
        ),
        _ => match log[1] {
            Exchange::Fetched { reply: Err(error), .. } => Err(
                error.context("query response "@ + shown(reg)),
            ),
            Exchange::Fetched { filled, reply: Ok(count), .. } => decoded(
                reg,
                filled.take(
                    if count < 5 {
                        count as int
                    } else {
                        5
                    },
                ),
                count,
            ),
            _ => arbitrary(),
        },
    }
}

/// Whether `log` is what a verified write leaves in the record: the write, the pause, and a read
/// of the same register, whatever the write came to.
pub open spec fn is_write(reg: u16, value: u16, log: Seq<Exchange>) -> bool {
    &&& log.len() > 2
    &&& log[0] matches Exchange::Sent { report, .. } && report == write_report(reg, value)
    &&& log[1] is Settled
    &&& is_read(reg, log.skip(2))
}

/// What a verified write comes to, going by the record of it. It succeeds where the write was
/// sent whole and the register then held the value.
pub open spec fn write_outcome(reg: u16, value: u16, log: Seq<Exchange>) -> Result<(), ErrorView> {
    let actual = read_outcome(reg, log.skip(2));
    match log[0]->Sent_reply {
        Err(error) => Err(
            error.context("write "@ + shown(reg) + "="@ + decimal(value as nat)),
        ),
        Ok(count) if count != 5 => length_check(count, "parameter write"@),
        _ => match actual {
            Err(error) => Err(error),
            Ok(found) if found != value => Err(
                ErrorView {
                    kind: "verification"@,
                    message: shown(reg) + ": requested "@ + decimal(value as nat)
                        + ", read back "@ + decimal(found as nat),
                    exit_code: 1,
                },
            ),
            _ => Ok(()),
        },
    }
}

/// Whether `reads` are the reads of an identity check: one of the first register and, where that
/// gave a value, one of the second.
pub open spec fn is_identity_check(reads: Seq<Seq<Exchange>>) -> bool {
    &&& 1 <= reads.len() <= 2
    &&& is_read(FIRST_IDENTITY, reads[0])
    &&& reads.len() == 2 ==> is_read(SECOND_IDENTITY, reads[1])
    &&& reads.len() == 2 <==> read_outcome(FIRST_IDENTITY, reads[0]) is Ok
}

/// What an identity check comes to: both registers must hold exactly the expected values.
pub open spec fn identity_outcome(reads: Seq<Seq<Exchange>>) -> Result<(), ErrorView> {
    match read_outcome(FIRST_IDENTITY, reads[0]) {
        Err(error) => Err(error),
        Ok(first) => match read_outcome(SECOND_IDENTITY, reads[1]) {
            Err(error) => Err(error),
            Ok(second) => if first == FIRST_EXPECTED && second == SECOND_EXPECTED {
                Ok(())
            } else {
                Err(
                    ErrorView::unsupported(
                        "unrecognized protocol identity "@ + shown(first) + "/"@ + shown(second)
                            + "; expected 0x0130/0x1300"@,
                    ),
                )
            },
        },
    }
}

/// Records one after the other.
pub open spec fn joined(parts: Seq<Seq<Exchange>>) -> Seq<Exchange>
    decreases parts.len(),
{
    if parts.len() == 0 {
        seq![]
    } else {
        joined(parts.drop_last()) + parts.last()
    }
}

/// Whether a protocol went from one state to another by these exchanges with its device.
pub open spec fn exchanged<T: FeatureIo>(
    before: Protocol<T>,
    after: Protocol<T>,
    log: Seq<Exchange>,
) -> bool {
    after.log() == before.log() + log
}

impl<T: FeatureIo> Protocol<T> {
    /// The record of all exchanges with the device.
    pub open spec fn log(&self) -> Seq<Exchange> {
        self.0.exchanges()
    }

    /// Reads a register.
    pub fn read(&mut self, reg: u16) -> (value: Result<u16, Error>)
        ensures
            continues(old(self).log(), final(self).log()),
            is_read(reg, added(old(self).log(), final(self).log())),
            outcome(value) == read_outcome(reg, added(old(self).log(), final(self).log())),
    {
        let ghost start = self.log();
        let lo: u8 = (reg % 256) as u8;
        let hi: u8 = (reg / 256) as u8;
        let mut request: [u8; 5] = [REPORT, 5, 3, lo, hi];
        assert(request@ =~= query_report(reg));
        let sent = self.0.set_feature(&mut request);
        let ghost one = seq![Exchange::Sent { report: query_report(reg), reply: outcome(sent) }];
        assert(self.log() =~= start + one);
        proof {
            added_joins(start, one);
        }
        let count = match sent {
            Ok(count) => count,
            Err(error) => {
                let context = String::from_str("query request ").concat(shown_text(reg).as_str());
                return Err(error.context(context.as_str()));
            },
        };
        match exact_length(count, "query") {
            Ok(()) => {},
            Err(error) => {
                return Err(error);
            },
        }
        let mut response: [u8; 5] = [REPORT, 0, 0, 0, 0];
        assert(response@ =~= blank_report());
        let fetched = self.0.get_feature(&mut response);
        let ghost two = one.push(
            Exchange::Fetched {
                report: blank_report(),
                filled: response@,
                reply: outcome(fetched),
            },
        );
        assert(self.log() =~= start + two);
        proof {
            added_joins(start, two);
        }
        match fetched {
            Err(error) => {
                let context = String::from_str("query response ").concat(shown_text(reg).as_str());
                Err(error.context(context.as_str()))
            },
            Ok(count) => {
                let end: usize = if count < 5 {
                    count
                } else {
                    5
                };
                let bytes = slice_subrange(response.as_slice(), 0, end);
                assert(bytes@ =~= response@.take(end as int));
                decode(reg, bytes, count)
            },
        }
    }

    /// Writes a register, and reads it back even where the write was reported as failed: a
    /// failed request can still have been carried out.
    pub fn write_verified(&mut self, reg: u16, value: u16) -> (done: Result<(), Error>)
        ensures
            continues(old(self).log(), final(self).log()),
            is_write(reg, value, added(old(self).log(), final(self).log())),
            outcome(done) == write_outcome(reg, value, added(old(self).log(), final(self).log())),
    {
        let ghost start = self.log();
        let rl: u8 = (reg % 256) as u8;
        let rh: u8 = (reg / 256) as u8;
        let vl: u8 = (value % 256) as u8;
        let vh: u8 = (value / 256) as u8;
        let mut request: [u8; 5] = [REPORT, rl, rh, vl, vh];
        assert(request@ =~= write_report(reg, value));
        let sent = self.0.set_feature(&mut request);
        self.0.settle();
        let ghost two = seq![
            Exchange::Sent { report: write_report(reg, value), reply: outcome(sent) },
            Exchange::Settled,
        ];
        let ghost settled = self.log();
        assert(settled =~= start + two);
        let actual = self.read(reg);
        proof {
            added_joins(start, two);
            added_in_turn(start, settled, self.log());
            let all = added(start, self.log());
            assert(all.skip(2) =~= added(settled, self.log()));
        }
        let count = match sent {
            Ok(count) => count,
            Err(error) => {
                let context = String::from_str("write ").concat(shown_text(reg).as_str()).concat(
                    "=",
                ).concat(decimal_text(value as u64).as_str());
                return Err(error.context(context.as_str()));
            },
        };
        match exact_length(count, "parameter write") {
            Ok(()) => {},
            Err(error) => {
                return Err(error);
            },
        }
        match actual {
            Err(error) => Err(error),
            Ok(found) => {
                if found != value {
                    let message = shown_text(reg).concat(": requested ").concat(
                        decimal_text(value as u64).as_str(),
                    ).concat(", read back ").concat(decimal_text(found as u64).as_str());
                    return Err(Error::new(1, "verification", message.as_str()));
                }
                Ok(())
            },
        }
    }

    /// Accepts a device only where both identity registers hold exactly what is expected. Only
    /// reads are made.
    pub fn check_identity(&mut self) -> (checked: Result<(), Error>)
        ensures
            continues(old(self).log(), final(self).log()),
            exists|reads: Seq<Seq<Exchange>>|
                {
                    &&& is_identity_check(reads)
                    &&& added(old(self).log(), final(self).log()) == #[trigger] joined(reads)
                    &&& outcome(checked) == identity_outcome(reads)
                },
    {
        let ghost start = self.log();
        let first = self.read(FIRST_IDENTITY);
        let ghost middle = self.log();
        let ghost one = seq![added(start, middle)];
        proof {
            reveal_with_fuel(joined, 3);
            assert(one.drop_last() =~= Seq::<Seq<Exchange>>::empty());
            assert(joined(one) =~= added(start, middle));
        }
        let first = match first {
            Ok(first) => first,
            Err(error) => {
                return Err(error);
            },
        };
        let second = self.read(SECOND_IDENTITY);
        let ghost two = one.push(added(middle, self.log()));
        proof {
            added_in_turn(start, middle, self.log());
            assert(two.drop_last() =~= one);
            assert(joined(two) =~= added(start, self.log()));
        }
        let second = match second {
            Ok(second) => second,
            Err(error) => {
                return Err(error);
            },
        };
        if first != FIRST_EXPECTED || second != SECOND_EXPECTED {
            let message = String::from_str("unrecognized protocol identity ").concat(
                shown_text(first).as_str(),
            ).concat("/").concat(shown_text(second).as_str()).concat("; expected 0x0130/0x1300");
            return Err(Error::unsupported(message.as_str()));
        }
        Ok(())
    }
}

} // verus!
