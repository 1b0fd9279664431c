//! The parametric equaliser: six cells per channel, a trim and a delay, and
//! two memories to compare. One model serves the buses (eight channels) and
//! the hardware strips (two).

use crate::num::{self, Sample};
use vstd::array::spec_array_update;
use vstd::prelude::*;

verus! {

/// Cells in series on every channel.
pub const NUM_CELLS: usize = 6;

/// Parameter sets an equaliser keeps.
pub const NUM_MEMORIES: usize = 2;

#[derive(Debug, Clone, Copy, PartialEq, Eq, Structural)]
pub enum EqCellType {
    Peak,
    LowPass,
    HighPass,
    LowShelf,
    HighShelf,
    BandPass,
    Notch,
}

impl Default for EqCellType {
    fn default() -> (r: Self)
        ensures
            r == EqCellType::Peak,
    {
        EqCellType::Peak
    }
}

/// One cell. A cell that is off is bypassed, whatever its other settings.
#[derive(Debug, Clone, Copy, PartialEq)]
pub struct EqCellParams<S> {
    pub on: bool,
    pub cell_type: EqCellType,
    pub freq_hz: S,
    pub gain_db: S,
    pub q: S,
}

impl<S: Sample> EqCellParams<S> {
    /// A peak at 1 kHz, switched off.
    pub open spec fn neutral() -> Self {
        EqCellParams {
            on: false,
            cell_type: EqCellType::Peak,
            freq_hz: num::whole::<S>(1000),
            gain_db: num::whole::<S>(0),
            q: num::whole::<S>(1),
        }
    }
}

impl<S: Sample> Default for EqCellParams<S> {
    fn default() -> (r: Self)
        ensures
            num::lawful::<S>() ==> r == Self::neutral(),
    {
        EqCellParams {
            on: false,
            cell_type: EqCellType::Peak,
            freq_hz: S::from(1000),
            gain_db: S::from(0),
            q: S::from(1),
        }
    }
}

/// One channel: its cells, its trim and its delay.
#[derive(Debug, Clone, Copy, PartialEq)]
pub struct EqChannelParams<S> {
    pub cells: [EqCellParams<S>; NUM_CELLS],
    pub trim_db: S,
    pub delay_ms: S,
}

impl<S: Sample> EqChannelParams<S> {
    /// Every cell off, no trim, no delay.
    pub open spec fn neutral() -> Self {
        EqChannelParams {
            cells: [EqCellParams::<S>::neutral(); NUM_CELLS],
            trim_db: num::whole::<S>(0),
            delay_ms: num::whole::<S>(0),
        }
    }
}

impl<S> EqChannelParams<S> {
    pub open spec fn with_cell(self, cell: int, params: EqCellParams<S>) -> Self {
        EqChannelParams { cells: spec_array_update(self.cells, cell, params), ..self }
    }
}

impl<S: Sample> Default for EqChannelParams<S> {
    fn default() -> (r: Self)
        ensures
            num::lawful::<S>() ==> r == Self::neutral(),
    {
        let cell: EqCellParams<S> = EqCellParams::default();
        EqChannelParams {
            cells: [cell; NUM_CELLS],
            trim_db: S::from(0),
            delay_ms: S::from(0),
        }
    }
}

/// The two parameter sets of an equaliser. Edits land in the active one.
#[derive(Debug, Clone, Copy, PartialEq, Eq, Structural)]
pub enum Memory {
    A,
    B,
}

impl Default for Memory {
    fn default() -> (r: Self)
        ensures
            r == Memory::A,
    {
        Memory::A
    }
}

impl Memory {
    pub open spec fn slot(self) -> int {
        match self {
            Memory::A => 0,
            Memory::B => 1,
        }
    }

    pub open spec fn other(self) -> Memory {
        match self {
            Memory::A => Memory::B,
            Memory::B => Memory::A,
        }
    }

    pub fn idx(self) -> (r: usize)
        ensures
            r == self.slot(),
            r < 2,
    {
        match self {
            Memory::A => 0,
            Memory::B => 1,
        }
    }
}

/// The settings of an equaliser with `N` channels.
#[derive(Clone, Copy)]
pub struct ParametricEq<S, const N: usize> {
    pub on: bool,
    pub active: Memory,
    pub params: [[EqChannelParams<S>; N]; NUM_MEMORIES],
}

impl<S: Copy, const N: usize> ParametricEq<S, N> {
    /// The settings of `channel` in memory `memory`.
    pub open spec fn stored(self, memory: Memory, channel: int) -> EqChannelParams<S> {
        self.params@[memory.slot()]@[channel]
    }

    /// The settings of `channel` in the active memory.
    pub open spec fn current(self, channel: int) -> EqChannelParams<S> {
        self.stored(self.active, channel)
    }

    /// This equaliser with `channel` of the active memory set to `params`.
    pub open spec fn with_channel(self, channel: int, params: EqChannelParams<S>) -> Self {
        ParametricEq {
            params: spec_array_update(
                self.params,
                self.active.slot(),
                spec_array_update(self.params@[self.active.slot()], channel, params),
            ),
            ..self
        }
    }

    pub open spec fn with_cell(self, channel: int, cell: int, params: EqCellParams<S>) -> Self {
        self.with_channel(channel, self.current(channel).with_cell(cell, params))
    }

    pub open spec fn with_trim(self, channel: int, trim_db: S) -> Self {
        self.with_channel(channel, EqChannelParams { trim_db, ..self.current(channel) })
    }

    pub open spec fn with_delay(self, channel: int, delay_ms: S) -> Self {
        self.with_channel(channel, EqChannelParams { delay_ms, ..self.current(channel) })
    }

    pub open spec fn with_memory(self, memory: Memory) -> Self {
        ParametricEq { active: memory, ..self }
    }

    pub open spec fn with_copy(self, from: int, to: int) -> Self {
        self.with_channel(to, self.current(from))
    }

    pub fn active_memory(&self) -> (r: Memory)
        ensures
            r == self.active,
    {
        self.active
    }

    /// Selects the memory that edits and the signal path use.
    pub fn set_active_memory(&mut self, memory: Memory)
        ensures
            *final(self) == old(self).with_memory(memory),
    {
        self.active = memory;
    }

    pub fn channel_params(&self, channel: usize) -> (r: &EqChannelParams<S>)
        requires
            channel < N,
        ensures
            *r == self.current(channel as int),
    {
        &self.params[self.active.idx()][channel]
    }

    pub fn set_channel_params(&mut self, channel: usize, params: EqChannelParams<S>)
        requires
            channel < N,
        ensures
            *final(self) == old(self).with_channel(channel as int, params),
    {
        self.params[self.active.idx()][channel] = params;
    }

    pub fn set_cell(&mut self, channel: usize, cell: usize, cell_params: EqCellParams<S>)
        requires
            channel < N,
            cell < NUM_CELLS,
        ensures
            *final(self) == old(self).with_cell(channel as int, cell as int, cell_params),
    {
        self.params[self.active.idx()][channel].cells[cell] = cell_params;
    }

    pub fn set_trim_db(&mut self, channel: usize, trim_db: S)
        requires
            channel < N,
        ensures
            *final(self) == old(self).with_trim(channel as int, trim_db),
    {
        self.params[self.active.idx()][channel].trim_db = trim_db;
    }

    pub fn set_delay_ms(&mut self, channel: usize, delay_ms: S)
        requires
            channel < N,
        ensures
            *final(self) == old(self).with_delay(channel as int, delay_ms),
    {
        self.params[self.active.idx()][channel].delay_ms = delay_ms;
    }

    /// Copies one channel's settings onto another, within the active memory.
    pub fn copy_channel(&mut self, from: usize, to: usize)
        requires
            from < N,
            to < N,
        ensures
            *final(self) == old(self).with_copy(from as int, to as int),
    {
        let params = self.params[self.active.idx()][from];
        self.set_channel_params(to, params);
    }

    /// Copies the active memory onto the active memory of `other`, channel by
    /// channel, as far as both have channels.
    pub fn copy_all_into<const M: usize>(&self, other: &mut ParametricEq<S, M>)
        ensures
            final(other).on == old(other).on,
            final(other).active == old(other).active,
            forall|c: int|
                0 <= c < M ==> #[trigger] final(other).current(c) == (if c < N {
                    self.current(c)
                } else {
                    old(other).current(c)
                }),
            forall|c: int|
                0 <= c < M ==> #[trigger] final(other).stored(old(other).active.other(), c)
                    == old(other).stored(old(other).active.other(), c),
    {
        let count: usize = if N < M {
            N
        } else {
            M
        };
        let mut channel: usize = 0;
        while channel < count
            invariant
                channel <= count,
                count <= N,
                count <= M,
                other.on == old(other).on,
                other.active == old(other).active,
                forall|c: int|
                    0 <= c < M ==> #[trigger] other.current(c) == (if c < channel {
                        self.current(c)
                    } else {
                        old(other).current(c)
                    }),
                forall|c: int|
                    0 <= c < M ==> #[trigger] other.stored(old(other).active.other(), c) == old(
                        other,
                    ).stored(old(other).active.other(), c),
            decreases count - channel,
        {
            let params = *self.channel_params(channel);
            proof {
                law_edit_is_local(*other, channel as int, params);
            }
            other.set_channel_params(channel, params);
            channel = channel + 1;
        }
    }
}

impl<S: Sample, const N: usize> ParametricEq<S, N> {
    /// Off, memory A, every channel neutral in both memories.
    pub open spec fn neutral() -> Self {
        ParametricEq {
            on: false,
            active: Memory::A,
            params: [[EqChannelParams::<S>::neutral(); N]; NUM_MEMORIES],
        }
    }

    pub fn new() -> (r: Self)
        requires
            num::lawful::<S>(),
        ensures
            r == Self::neutral(),
    {
        let channel: EqChannelParams<S> = EqChannelParams::default();
        ParametricEq { on: false, active: Memory::A, params: [[channel; N]; NUM_MEMORIES] }
    }

    /// Puts one channel of the active memory back to neutral.
    pub fn reset_channel(&mut self, channel: usize)
        requires
            num::lawful::<S>(),
            channel < N,
        ensures
            *final(self) == old(self).with_channel(
                channel as int,
                EqChannelParams::<S>::neutral(),
            ),
    {
        self.set_channel_params(channel, EqChannelParams::default());
    }

    /// Puts every channel of the active memory back to neutral.
    pub fn reset_all(&mut self)
        requires
            num::lawful::<S>(),
        ensures
            final(self).on == old(self).on,
            final(self).active == old(self).active,
            forall|c: int|
                0 <= c < N ==> #[trigger] final(self).current(c) == EqChannelParams::<
                    S,
                >::neutral(),
            forall|c: int|
                0 <= c < N ==> #[trigger] final(self).stored(old(self).active.other(), c) == old(
                    self,
                ).stored(old(self).active.other(), c),
    {
        let mut channel: usize = 0;
        while channel < N
            invariant
                num::lawful::<S>(),
                channel <= N,
                self.on == old(self).on,
                self.active == old(self).active,
                forall|c: int|
                    0 <= c < channel ==> #[trigger] self.current(c) == EqChannelParams::<
                        S,
                    >::neutral(),
                forall|c: int|
                    0 <= c < N ==> #[trigger] self.stored(old(self).active.other(), c) == old(
                        self,
                    ).stored(old(self).active.other(), c),
            decreases N - channel,
        {
            proof {
                law_edit_is_local(*self, channel as int, EqChannelParams::<S>::neutral());
            }
            self.reset_channel(channel);
            channel = channel + 1;
        }
    }
}

/// An edit changes its own channel of the active memory, and nothing else:
/// not the other channels, not the other memory.
pub proof fn law_edit_is_local<S: Copy, const N: usize>(
    eq: ParametricEq<S, N>,
    channel: int,
    params: EqChannelParams<S>,
)
    requires
        0 <= channel < N,
    ensures
        eq.with_channel(channel, params).current(channel) == params,
        eq.with_channel(channel, params).on == eq.on,
        eq.with_channel(channel, params).active == eq.active,
        forall|c: int|
            0 <= c < N && c != channel ==> #[trigger] eq.with_channel(channel, params).current(c)
                == eq.current(c),
        forall|c: int|
            0 <= c < N ==> #[trigger] eq.with_channel(channel, params).stored(eq.active.other(), c)
                == eq.stored(eq.active.other(), c),
{
}

/// Switching to the other memory and back restores what was heard: the switch
/// itself edits nothing.
pub proof fn law_memory_switch_is_lossless<S: Copy, const N: usize>(
    eq: ParametricEq<S, N>,
    memory: Memory,
)
    ensures
        eq.with_memory(memory).with_memory(eq.active) == eq,
        forall|m: Memory, c: int|
            0 <= c < N ==> #[trigger] eq.with_memory(memory).stored(m, c) == eq.stored(m, c),
{
}

/// Of two edits of one channel the last one stands.
pub proof fn law_last_edit_stands<S: Copy, const N: usize>(
    eq: ParametricEq<S, N>,
    channel: int,
    first: EqChannelParams<S>,
    last: EqChannelParams<S>,
)
    requires
        0 <= channel < N,
    ensures
        eq.with_channel(channel, first).with_channel(channel, last) == eq.with_channel(
            channel,
            last,
        ),
{
    let a = eq.with_channel(channel, first).with_channel(channel, last);
    let b = eq.with_channel(channel, last);
    let m = eq.active.slot();
    assert(a.params@[m] =~= b.params@[m]);
    assert(a.params =~= b.params);
}

} // verus!
