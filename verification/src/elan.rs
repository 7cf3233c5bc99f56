//! The settings of a touchpad: what they are, which are valid, and in which order they change.
use vstd::prelude::*;
use vstd::string::StringExecFns;

use crate::error::{outcome, Error, ErrorView};
use crate::protocol::{
    added, added_in_turn, continues, is_read, joined, read_outcome, Exchange, FeatureIo, Protocol,
};
use crate::text::{decimal, decimal_text};

verus! {

/// The registers of the settings: press, release and drag release threshold, and the control
/// bits.
pub const REGS: [u16; 4] = [0x03a2, 0x03a3, 0x03a4, 0x03a1];

/// The bit of the control register that enables feedback.
pub const HAPTICS: u16 = 0x0100;

/// The least thresholds that may be requested. They are a policy of this program, not limits of
/// the firmware.
pub const LOWEST: [u16; 3] = [120, 95, 60];

/// The greatest thresholds that may be requested.
pub const HIGHEST: [u16; 3] = [192, 154, 125];

/// The values of the settings registers, in the order of [`REGS`].
#[derive(Clone, Copy, Debug, PartialEq, Eq)]
pub struct State(pub [u16; 4]);

impl View for State {
    type V = Seq<u16>;

    open spec fn view(&self) -> Seq<u16> {
        self.0@
    }
}

/// What a change of settings asks for. What is not named stays as it is.
#[derive(Clone, Copy, Debug)]
pub struct Update {
    pub thresholds: [Option<u16>; 3],
    pub haptics: Option<bool>,
}

/// The settings as the user sees them.
#[derive(Clone, Copy, Debug, PartialEq, Eq, Structural)]
pub struct Settings {
    pub press_threshold: u16,
    pub release_threshold: u16,
    pub drag_release_threshold: u16,
    pub haptics: bool,
}

/// One register that is to change.
#[derive(Clone, Copy, Debug)]
pub struct Change {
    pub setting: &'static str,
    pub before_raw: u16,
    pub after_raw: u16,
    pub index: usize,
}

/// What a [`Change`] says.
#[verifier::ext_equal]
pub struct ChangeView {
    pub setting: Seq<char>,
    pub before_raw: u16,
    pub after_raw: u16,
    pub index: int,
}

impl View for Change {
    type V = ChangeView;

    open spec fn view(&self) -> ChangeView {
        ChangeView {
            setting: self.setting@,
            before_raw: self.before_raw,
            after_raw: self.after_raw,
            index: self.index as int,
        }
    }
}

/// The changes of a list, as they read.
pub open spec fn change_views(changes: Seq<Change>) -> Seq<ChangeView> {
    changes.map_values(|change: Change| change@)
}

/// The name of a setting.
pub open spec fn name(index: int) -> Seq<char> {
    if index == 0 {
        "press_threshold"@
    } else if index == 1 {
        "release_threshold"@
    } else if index == 2 {
        "drag_release_threshold"@
    } else {
        "haptics"@
    }
}

pub(crate) fn setting_name(index: usize) -> (text: &'static str)
    ensures
        text@ == name(index as int),
{
    if index == 0 {
        "press_threshold"
    } else if index == 1 {
        "release_threshold"
    } else if index == 2 {
        "drag_release_threshold"
    } else {
        "haptics"
    }
}

/// Whether feedback is enabled.
pub open spec fn feedback(control: u16) -> bool {
    control & HAPTICS != 0
}

/// The control bits with feedback switched; all others stay as they are.
pub open spec fn with_feedback(control: u16, on: bool) -> u16 {
    (control & !HAPTICS) | (if on {
        HAPTICS
    } else {
        0
    })
}

/// Hysteresis: both release thresholds are positive and strictly below the press threshold.
pub open spec fn hysteresis(state: Seq<u16>) -> bool {
    0 < state[1] < state[0] && 0 < state[2] < state[0]
}

/// Whether a state may be kept or reached.
pub open spec fn state_check(state: Seq<u16>) -> Result<(), ErrorView> {
    if hysteresis(state) {
        Ok(())
    } else if state[1] < state[0] && state[2] < state[0] {
        Err(ErrorView::invalid("both release thresholds must be positive"@))
    } else {
        Err(
            ErrorView::invalid("both release thresholds must be strictly below press threshold"@),
        )
    }
}

/// Whether `reads` are the reads that take in a state: one register after the other, up to the
/// first that cannot be read.
pub open spec fn is_snapshot(reads: Seq<Seq<Exchange>>) -> bool {
    &&& 1 <= reads.len() <= 4
    &&& forall|i: int| 0 <= i < reads.len() ==> is_read(REGS@[i], #[trigger] reads[i])
    &&& forall|i: int|
        0 <= i < reads.len() - 1 ==> read_outcome(REGS@[i], #[trigger] reads[i]) is Ok
    &&& reads.len() < 4 ==> read_outcome(REGS@[reads.len() - 1], reads.last()) is Err
}

/// What such reads come to: the state, or the failure of the last of them.
pub open spec fn snapshot_outcome(reads: Seq<Seq<Exchange>>) -> Result<Seq<u16>, ErrorView> {
    match read_outcome(REGS@[reads.len() - 1], reads.last()) {
        Err(error) => Err(error),
        Ok(_) => Ok(Seq::new(4, |i: int| read_outcome(REGS@[i], reads[i])->Ok_0)),
    }
}

/// A state that was read, or the failure to read it.
pub open spec fn state_outcome(state: Result<State, Error>) -> Result<Seq<u16>, ErrorView> {
    match state {
        Ok(state) => Ok(state@),
        Err(error) => Err(error@),
    }
}

impl State {
    /// Reads all settings registers.
    pub fn read<T: FeatureIo>(io: &mut Protocol<T>) -> (state: Result<Self, Error>)
        ensures
            continues(old(io).log(), final(io).log()),
            exists|reads: Seq<Seq<Exchange>>|
                {
                    &&& is_snapshot(reads)
                    &&& added(old(io).log(), final(io).log()) == #[trigger] joined(reads)
                    &&& state_outcome(state) == snapshot_outcome(reads)
                },
    {
        let ghost start = io.log();
        let ghost mut reads: Seq<Seq<Exchange>> = seq![];
        let mut values: [u16; 4] = [0, 0, 0, 0];
        let mut i: usize = 0;
        assert(added(start, io.log()) =~= joined(reads));
        while i < 4
            invariant
                i <= 4,
                start == old(io).log(),
                reads.len() == i,
                continues(start, io.log()),
                added(start, io.log()) == joined(reads),
                forall|k: int| 0 <= k < i ==> is_read(REGS@[k], #[trigger] reads[k]),
                forall|k: int|
                    0 <= k < i ==> read_outcome(REGS@[k], #[trigger] reads[k]) == Ok::<
                        u16,
                        ErrorView,
                    >(values@[k]),
            decreases 4 - i,
        {
            let ghost middle = io.log();
            let value = io.read(REGS[i]);
            let ghost before = reads;
            proof {
                added_in_turn(start, middle, io.log());
                reads = reads.push(added(middle, io.log()));
                assert(reads.drop_last() =~= before);
                assert(added(start, io.log()) =~= joined(reads));
                assert(forall|k: int| 0 <= k < i ==> reads[k] == before[k]);
            }
            match value {
                Ok(value) => {
                    values[i] = value;
                },
                Err(error) => {
                    return Err(error);
                },
            }
            i = i + 1;
        }
        assert(values@ =~= snapshot_outcome(reads)->Ok_0);
        Ok(State(values))
    }

    /// The settings that the registers stand for.
    pub fn settings(self) -> (settings: Settings)
        ensures
            settings == shown_settings(self@),
    {
        Settings {
            press_threshold: self.0[0],
            release_threshold: self.0[1],
            drag_release_threshold: self.0[2],
            haptics: self.0[3] & HAPTICS != 0,
        }
    }

    /// Accepts a state only where it keeps hysteresis.
    pub fn validate(self) -> (checked: Result<(), Error>)
        ensures
            outcome(checked) == state_check(self@),
    {
        if self.0[1] >= self.0[0] || self.0[2] >= self.0[0] {
            return Err(
                Error::invalid("both release thresholds must be strictly below press threshold"),
            );
        }
        if self.0[1] == 0 || self.0[2] == 0 {
            return Err(Error::invalid("both release thresholds must be positive"));
        }
        Ok(())
    }

    /// Whether two states are the same.
    pub fn equals(&self, other: &State) -> (equal: bool)
        ensures
            equal == (self@ == other@),
    {
        let equal = self.0[0] == other.0[0] && self.0[1] == other.0[1] && self.0[2] == other.0[2]
            && self.0[3] == other.0[3];
        assert(equal ==> self@ =~= other@);
        equal
    }
}

/// The settings that the registers of a state stand for.
pub open spec fn shown_settings(state: Seq<u16>) -> Settings {
    Settings {
        press_threshold: state[0],
        release_threshold: state[1],
        drag_release_threshold: state[2],
        haptics: feedback(state[3]),
    }
}

impl Default for Update {
    fn default() -> (update: Self)
        ensures
            update.thresholds@ == seq![None::<u16>, None::<u16>, None::<u16>],
            update.haptics is None,
    {
        let update = Update { thresholds: [None, None, None], haptics: None };
        assert(update.thresholds@ =~= seq![None::<u16>, None::<u16>, None::<u16>]);
        update
    }
}

/// Whether a requested threshold is within the policy bounds.
pub open spec fn in_bounds(index: int, value: u16) -> bool {
    LOWEST@[index] <= value <= HIGHEST@[index]
}

/// The first threshold from `index` on that is requested outside its bounds, or none.
pub open spec fn first_outside(thresholds: Seq<Option<u16>>, index: int) -> Option<int>
    decreases 3 - index,
{
    if index >= 3 {
        None
    } else {
        match thresholds[index] {
            Some(value) if !in_bounds(index, value) => Some(index),
            _ => first_outside(thresholds, index + 1),
        }
    }
}

/// Why a threshold outside its bounds is refused.
pub open spec fn bounds_message(index: int) -> Seq<char> {
    name(index) + " must be between "@ + decimal(LOWEST@[index] as nat) + " and "@ + decimal(
        HIGHEST@[index] as nat,
    )
}

/// Whether an update may be asked for at all, whatever the device holds: it names a setting, and
/// no threshold outside the policy bounds.
pub open spec fn update_check(update: Update) -> Result<(), ErrorView> {
    let thresholds = update.thresholds@;
    if thresholds[0] is None && thresholds[1] is None && thresholds[2] is None
        && update.haptics is None {
        Err(ErrorView::invalid("set requires at least one setting"@))
    } else {
        match first_outside(thresholds, 0) {
            Some(index) => Err(ErrorView::invalid(bounds_message(index))),
            None => Ok(()),
        }
    }
}

/// The state that an update leads to: what it names takes the new value, and nothing else
/// changes.
pub open spec fn updated(update: Update, before: Seq<u16>) -> Seq<u16> {
    Seq::new(
        4,
        |i: int|
            if i == 3 {
                match update.haptics {
                    Some(on) => with_feedback(before[3], on),
                    None => before[3],
                }
            } else {
                match update.thresholds@[i] {
                    Some(value) => value,
                    None => before[i],
                }
            },
    )
}

/// The state to reach, or why there is none: the update is checked first, then the state that is
/// there, then the state to be.
pub open spec fn target_outcome(update: Update, before: Seq<u16>) -> Result<Seq<u16>, ErrorView> {
    match update_check(update) {
        Err(error) => Err(error),
        Ok(()) => match state_check(before) {
            Err(error) => Err(
                ErrorView::unsupported(
                    "current thresholds cannot be safely updated: "@ + error.message,
                ),
            ),
            Ok(()) => match state_check(updated(update, before)) {
                Err(error) => Err(error),
                Ok(()) => Ok(updated(update, before)),
            },
        },
    }
}

impl Update {
    /// Refuses an empty update and thresholds outside the policy bounds.
    pub fn validate(&self) -> (checked: Result<(), Error>)
        ensures
            outcome(checked) == update_check(*self),
    {
        if self.thresholds[0].is_none() && self.thresholds[1].is_none()
            && self.thresholds[2].is_none() && self.haptics.is_none() {
            return Err(Error::invalid("set requires at least one setting"));
        }
        let mut i: usize = 0;
        while i < 3
            invariant
                i <= 3,
                first_outside(self.thresholds@, 0) == first_outside(self.thresholds@, i as int),
                !(self.thresholds@[0] is None && self.thresholds@[1] is None
                    && self.thresholds@[2] is None && self.haptics is None),
            decreases 3 - i,
        {
            if let Some(value) = self.thresholds[i] {
                if value < LOWEST[i] || value > HIGHEST[i] {
                    let message = String::from_str(setting_name(i)).concat(
                        " must be between ",
                    ).concat(decimal_text(LOWEST[i] as u64).as_str()).concat(" and ").concat(
                        decimal_text(HIGHEST[i] as u64).as_str(),
                    );
                    return Err(Error::invalid(message.as_str()));
                }
            }
            i = i + 1;
        }
        Ok(())
    }

    /// The state that the update leads to from the given one.
    pub fn target(&self, before: State) -> (after: Result<State, Error>)
        ensures
            state_outcome(after) == target_outcome(*self, before@),
    {
        match self.validate() {
            Ok(()) => {},
            Err(error) => {
                return Err(error);
            },
        }
        match before.validate() {
            Ok(()) => {},
            Err(error) => {
                let message = String::from_str(
                    "current thresholds cannot be safely updated: ",
                ).concat(error.message.as_str());
                return Err(Error::unsupported(message.as_str()));
            },
        }
        let mut after = before.0;
        let mut i: usize = 0;
        while i < 3
            invariant
                i <= 3,
                after@[3] == before@[3],
                forall|k: int| 0 <= k < i ==> after@[k] == updated(*self, before@)[k],
                forall|k: int| i <= k < 3 ==> after@[k] == before@[k],
            decreases 3 - i,
        {
            if let Some(value) = self.thresholds[i] {
                after[i] = value;
            }
            i = i + 1;
        }
        if let Some(on) = self.haptics {
            after[3] = (after[3] & !HAPTICS) | (if on {
                HAPTICS
            } else {
                0
            });
        }
        assert(after@ =~= updated(*self, before@));
        let after = State(after);
        match after.validate() {
            Ok(()) => Ok(after),
            Err(error) => Err(error),
        }
    }
}

} // verus!
