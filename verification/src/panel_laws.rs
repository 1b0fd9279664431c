//! What a panel shows is what is set; and what the controls do that act on several
//! settings at once.

use crate::bus_mode::BusMode;
use crate::command::{EngineCommand, ParamKey};
use crate::convergence::{self, Setting};
use crate::engine::Engine;
use crate::intellipan::IntellipanMode;
use crate::num::{self, Sample};
use crate::parametric_eq::{EqChannelParams, Memory, NUM_CELLS};
use crate::patch::CompositeSource;
use crate::snapshot::{BusSnapshot, ControlSnapshot, EqSnapshot, StripSnapshot};
use crate::strip_dsp::STRIP_EQ_CHANNELS;
use crate::{CHANNELS, NUM_BUSES, NUM_STRIPS};
use vstd::prelude::*;

verus! {

/// A snapshot shows every control of a strip at what it is set to.
pub proof fn law_a_snapshot_shows_a_strip<S: Sample>(
    snapshot: ControlSnapshot<S>,
    e: Engine<S>,
    s: usize,
    b: usize,
)
    requires
        snapshot.shows(e),
        s < NUM_STRIPS,
        b < NUM_BUSES,
    ensures
        ({
            let shown = snapshot.strips@[s as int];
            &&& convergence::setting(e, ParamKey::StripMute(s)) == Some(
                Setting::<S>::Switch(shown.mute),
            )
            &&& convergence::setting(e, ParamKey::StripSolo(s)) == Some(
                Setting::<S>::Switch(shown.solo),
            )
            &&& convergence::setting(e, ParamKey::StripMono(s)) == Some(
                Setting::<S>::Switch(shown.mono),
            )
            &&& convergence::setting(e, ParamKey::StripBusAssign(s, b)) == Some(
                Setting::<S>::Switch(shown.bus_assign@[b as int]),
            )
            &&& convergence::setting(e, ParamKey::StripGainLayer(s, b)) == Some(
                Setting::Level(shown.gain_layer_db@[b as int]),
            )
            &&& convergence::setting(e, ParamKey::StripLimiterThreshold(s)) == Some(
                Setting::Level(shown.limiter_threshold_db),
            )
        }),
{
    assert(snapshot.strips@[s as int] == StripSnapshot::of(e.strips@[s as int]));
}

/// The same of the effects that a hardware strip has.
pub proof fn law_a_snapshot_shows_a_hardware_strip<S: Sample>(
    snapshot: ControlSnapshot<S>,
    e: Engine<S>,
    s: usize,
)
    requires
        snapshot.shows(e),
        s < NUM_STRIPS,
        e.strips@[s as int].chain is Hardware,
    ensures
        ({
            let shown = snapshot.strips@[s as int];
            &&& convergence::setting(e, ParamKey::StripPan(s)) == Some(Setting::Level(shown.pan))
            &&& convergence::setting(e, ParamKey::StripGateKnob(s)) == Some(
                Setting::Level(shown.gate_knob),
            )
            &&& convergence::setting(e, ParamKey::StripCompKnob(s)) == Some(
                Setting::Level(shown.comp_knob),
            )
            &&& convergence::setting(e, ParamKey::StripDenoiserKnob(s)) == Some(
                Setting::Level(shown.denoiser_knob),
            )
            &&& convergence::setting(e, ParamKey::StripIntellipanMode(s)) == Some(
                Setting::<S>::PadMode(shown.intellipan_mode),
            )
            &&& convergence::setting(e, ParamKey::StripIntellipanXY(s)) matches Some(
                Setting::Pad(place),
            ) && shown.intellipan_xy == (place.x, place.y)
            &&& convergence::setting(e, ParamKey::StripEqOn(s)) == Some(
                Setting::<S>::Switch(shown.strip_eq_on),
            )
            &&& convergence::setting(e, ParamKey::StripEqMemory(s)) == Some(
                Setting::<S>::Memory(shown.strip_eq_memory),
            )
        }),
{
    assert(snapshot.strips@[s as int] == StripSnapshot::of(e.strips@[s as int]));
}

/// The same of the effects that a virtual strip has.
pub proof fn law_a_snapshot_shows_a_virtual_strip<S: Sample>(
    snapshot: ControlSnapshot<S>,
    e: Engine<S>,
    s: usize,
)
    requires
        snapshot.shows(e),
        s < NUM_STRIPS,
        e.strips@[s as int].chain is Virtual,
    ensures
        ({
            let shown = snapshot.strips@[s as int];
            &&& convergence::setting(e, ParamKey::StripEq3(s)) == Some(
                Setting::Levels(shown.eq3_db.0, shown.eq3_db.1, shown.eq3_db.2),
            )
            &&& convergence::setting(e, ParamKey::StripPositionPad(s)) == Some(
                Setting::Place(shown.position_pad.0, shown.position_pad.1),
            )
            &&& convergence::setting(e, ParamKey::StripMc(s)) == Some(
                Setting::<S>::Switch(shown.mc),
            )
            &&& convergence::setting(e, ParamKey::StripKaraoke(s)) == Some(
                Setting::<S>::Karaoke(shown.karaoke),
            )
        }),
{
    assert(snapshot.strips@[s as int] == StripSnapshot::of(e.strips@[s as int]));
}

/// The same of a bus.
pub proof fn law_a_snapshot_shows_a_bus<S: Sample>(
    snapshot: ControlSnapshot<S>,
    e: Engine<S>,
    b: usize,
)
    requires
        snapshot.shows(e),
        b < NUM_BUSES,
    ensures
        ({
            let shown = snapshot.buses@[b as int];
            &&& convergence::setting(e, ParamKey::BusMute(b)) == Some(
                Setting::<S>::Switch(shown.mute),
            )
            &&& convergence::setting(e, ParamKey::BusMono(b)) == Some(
                Setting::<S>::Mono(shown.mono),
            )
            &&& convergence::setting(e, ParamKey::BusMode(b)) == Some(
                Setting::<S>::Mode(shown.mode),
            )
            &&& convergence::setting(e, ParamKey::BusGain(b)) == Some(
                Setting::Level(shown.gain_db),
            )
            &&& convergence::setting(e, ParamKey::BusEqOn(b)) == Some(
                Setting::<S>::Switch(shown.eq_on),
            )
            &&& convergence::setting(e, ParamKey::BusEqMemory(b)) == Some(
                Setting::<S>::Memory(shown.eq_memory),
            )
        }),
{
    assert(snapshot.buses@[b as int] == BusSnapshot::of(e.buses@[b as int]));
}

/// A snapshot of the equalisers shows every cell, trim and delay at what it is set
/// to.
pub proof fn law_a_snapshot_shows_the_equalisers<S: Sample>(
    snapshot: EqSnapshot<S>,
    e: Engine<S>,
    s: usize,
    b: usize,
    ch: usize,
    cell: usize,
)
    requires
        snapshot.shows(e),
        s < NUM_STRIPS,
        b < NUM_BUSES,
        ch < CHANNELS,
        cell < NUM_CELLS,
    ensures
        ({
            let shown = snapshot.buses@[b as int]@[ch as int];
            &&& convergence::setting(e, ParamKey::BusEqCell(b, ch, cell)) == Some(
                Setting::Cell(shown.cells@[cell as int]),
            )
            &&& convergence::setting(e, ParamKey::BusEqTrim(b, ch)) == Some(
                Setting::Level(shown.trim_db),
            )
            &&& convergence::setting(e, ParamKey::BusEqDelay(b, ch)) == Some(
                Setting::Level(shown.delay_ms),
            )
        }),
        ch < STRIP_EQ_CHANNELS && e.strips@[s as int].chain is Hardware ==> ({
            let shown = snapshot.strips@[s as int]@[ch as int];
            &&& convergence::setting(e, ParamKey::StripEqCell(s, ch, cell)) == Some(
                Setting::Cell(shown.cells@[cell as int]),
            )
            &&& convergence::setting(e, ParamKey::StripEqTrim(s, ch)) == Some(
                Setting::Level(shown.trim_db),
            )
            &&& convergence::setting(e, ParamKey::StripEqDelay(s, ch)) == Some(
                Setting::Level(shown.delay_ms),
            )
        }),
{
    assert(snapshot.buses@[b as int]@[ch as int] == e.buses@[b as int].eq.current(ch as int));
    if ch < STRIP_EQ_CHANNELS {
        assert(snapshot.strips@[s as int]@[ch as int] == EqSnapshot::strip_channel(
            e.strips@[s as int],
            ch as int,
        ));
    }
}

/// A channel of an equaliser that is copied is what the other one is, one that is
/// reset is neutral, and no other channel and no other memory changes.
pub proof fn law_what_a_copy_and_a_reset_do<S: Sample>(
    e: Engine<S>,
    b: usize,
    from: usize,
    to: usize,
    other: usize,
    memory: Memory,
)
    requires
        b < NUM_BUSES,
        from < CHANNELS,
        to < CHANNELS,
        other < CHANNELS,
    ensures
        ({
            let eq = e.buses@[b as int].eq;
            let copied = EngineCommand::<S>::CopyBusEqChannel(b, from, to).applied(e).buses@[b as int].eq;
            let reset = EngineCommand::<S>::ResetBusEqChannel(b, to).applied(e).buses@[b as int].eq;
            &&& copied.current(to as int) == eq.current(from as int)
            &&& reset.current(to as int) == EqChannelParams::<S>::neutral()
            &&& copied.on == eq.on && reset.on == eq.on
            &&& copied.active == eq.active && reset.active == eq.active
            &&& other != to || memory != eq.active ==> copied.stored(memory, other as int)
                == eq.stored(memory, other as int) && reset.stored(memory, other as int)
                == eq.stored(memory, other as int)
        }),
{
}

/// The same of a hardware strip's equaliser.
pub proof fn law_what_a_copy_and_a_reset_do_to_a_strip<S: Sample>(
    e: Engine<S>,
    s: usize,
    from: usize,
    to: usize,
    other: usize,
    memory: Memory,
)
    requires
        s < NUM_STRIPS,
        e.strips@[s as int].chain is Hardware,
        from < STRIP_EQ_CHANNELS,
        to < STRIP_EQ_CHANNELS,
        other < STRIP_EQ_CHANNELS,
    ensures
        ({
            let eq = e.strips@[s as int].chain->Hardware_0.eq;
            let copy = EngineCommand::<S>::CopyStripEqChannel(s, from, to).applied(e);
            let clear = EngineCommand::<S>::ResetStripEqChannel(s, to).applied(e);
            let copied = copy.strips@[s as int].chain->Hardware_0.eq;
            let reset = clear.strips@[s as int].chain->Hardware_0.eq;
            &&& copied.current(to as int) == eq.current(from as int)
            &&& reset.current(to as int) == EqChannelParams::<S>::neutral()
            &&& copied.on == eq.on && reset.on == eq.on
            &&& copied.active == eq.active && reset.active == eq.active
            &&& other != to || memory != eq.active ==> copied.stored(memory, other as int)
                == eq.stored(memory, other as int) && reset.stored(memory, other as int)
                == eq.stored(memory, other as int)
        }),
{
}

/// A pad that is switched to starts at its origin, and the two others stay where
/// they were; moving a pad moves the one that is switched to.
pub proof fn law_what_a_pad_switch_does<S: Sample>(
    e: Engine<S>,
    s: usize,
    mode: IntellipanMode,
    other: IntellipanMode,
)
    requires
        s < NUM_STRIPS,
        e.strips@[s as int].chain is Hardware,
    ensures
        ({
            let pads = e.strips@[s as int].chain->Hardware_0.pad;
            let after = EngineCommand::<S>::SetStripIntellipanMode(s, mode).applied(e);
            let now = after.strips@[s as int].chain->Hardware_0.pad;
            &&& now.mode == mode
            &&& now.pad(mode).x == num::whole::<S>(0)
            &&& now.pad(mode).y == num::whole::<S>(0)
            &&& other != mode ==> now.pad(other) == pads.pad(other)
        }),
{
}

/// A strip runs where it is let through, or where a composite bus takes it behind
/// the fader; where it is let through it is neither muted nor silenced by a solo.
pub proof fn law_when_a_strip_runs<S: Sample>(e: Engine<S>, s: int, k: int, b: int, c: int)
    requires
        0 <= s < NUM_STRIPS,
        0 <= k < NUM_STRIPS,
        0 <= b < NUM_BUSES,
        0 <= c < CHANNELS,
    ensures
        !e.strips@[s].mute && e.strips@[s].solo ==> e.runs(s),
        !e.strips@[s].mute && (forall|j: int|
            0 <= j < NUM_STRIPS ==> !(#[trigger] e.strips@[j]).solo) ==> e.runs(s),
        e.buses@[b].mode == BusMode::Composite && e.patch.composite_post_fader
            && (e.patch.composite@[c] matches CompositeSource::Strip { strip, .. } && strip == s)
            ==> e.runs(s),
        !e.patch.composite_post_fader && e.strips@[s].mute ==> !e.runs(s),
        !e.patch.composite_post_fader && e.strips@[k].solo && !e.strips@[s].solo ==> !e.runs(s),
{
    if e.buses@[b].mode == BusMode::Composite {
        assert(e.any_composite());
    }
    if e.patch.composite@[c] matches CompositeSource::Strip { strip, .. } && strip == s {
        assert(e.patch.slot_taps(c, s as usize));
        assert(e.patch.taps(s as usize));
    }
    if e.strips@[k].solo {
        assert(e.any_solo());
    }
}

} // verus!
