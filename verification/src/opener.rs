//! Opening and closing devices, with a record of both.
//!
//! Whoever works with devices goes through an [`Opener`]: only it can call the function that opens
//! them. What was opened, and in which state each device was left, can then be told from its
//! record.
use vstd::prelude::*;

use crate::device::{Device, DeviceView};
use crate::error::{Error, ErrorView};
use crate::protocol::{FeatureIo, Protocol, Record};

verus! {

/// One use of an opener.
pub enum Access {
    /// A device was opened, or could not be: the record of its transport as it was handed over.
    Opened { device: DeviceView, result: Result<Record, ErrorView> },
    /// A device was closed: all that had gone through its transport by then.
    Closed { log: Record },
}

/// The record of a transport that was opened, or why it was not.
pub open spec fn opened_outcome<T: FeatureIo>(opened: Result<Protocol<T>, Error>) -> Result<
    Record,
    ErrorView,
> {
    match opened {
        Ok(io) => Ok(io.log()),
        Err(error) => Err(error@),
    }
}

/// Opens devices with a function of its own.
///
/// The record exists in proofs only.
pub struct Opener<F> {
    function: F,
    record: Ghost<Seq<Access>>,
}

impl<F> Opener<F> {
    /// The function that opens a device.
    pub closed spec fn function(&self) -> F {
        self.function
    }

    /// All that was opened and closed so far, in order.
    pub closed spec fn record(&self) -> Seq<Access> {
        self.record@
    }

    /// An opener that has not opened anything yet.
    pub fn new(function: F) -> (opener: Self)
        ensures
            opener.function() == function,
            opener.record() == Seq::<Access>::empty(),
    {
        Opener { function, record: Ghost(Seq::empty()) }
    }

    /// Opens a device.
    pub fn open<T: FeatureIo>(&mut self, device: &Device) -> (opened: Result<Protocol<T>, Error>)
        where F: Fn(&Device) -> Result<Protocol<T>, Error>
        requires
            call_requires(old(self).function(), (device,)),
        ensures
            final(self).function() == old(self).function(),
            final(self).record() == old(self).record().push(
                Access::Opened { device: device@, result: opened_outcome(opened) },
            ),
            call_ensures(old(self).function(), (device,), opened),
    {
        let opened = (self.function)(device);
        self.record = Ghost(
            self.record@.push(
                Access::Opened { device: device@, result: opened_outcome(opened) },
            ),
        );
        opened
    }

    /// Closes a device.
    pub fn close<T: FeatureIo>(&mut self, io: Protocol<T>)
        ensures
            final(self).function() == old(self).function(),
            final(self).record() == old(self).record().push(Access::Closed { log: io.log() }),
    {
        self.record = Ghost(self.record@.push(Access::Closed { log: io.log() }));
    }
}

} // verus!
