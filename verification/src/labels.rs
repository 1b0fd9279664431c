//! The names of the modes on the wire.

use crate::bus::BusMono;
use crate::bus_mode::BusMode;
use crate::intellipan::IntellipanMode;
use crate::karaoke::KaraokeMode;
use crate::parametric_eq::Memory;
use crate::text::same_text;
use vstd::prelude::*;

verus! {

/// The name of a bus's mono switch.
pub open spec fn bus_mono_label(v: BusMono) -> Seq<char> {
    match v {
        BusMono::Off => "off"@,
        BusMono::Mono => "mono"@,
        BusMono::StereoReverse => "stereo_reverse"@,
    }
}

/// What `s` names, if it is the name of a bus's mono switch.
pub open spec fn bus_mono_named(s: Seq<char>) -> Option<BusMono> {
    if s == "off"@ {
        Some(BusMono::Off)
    } else if s == "mono"@ {
        Some(BusMono::Mono)
    } else if s == "stereo_reverse"@ {
        Some(BusMono::StereoReverse)
    } else {
        None
    }
}

pub fn bus_mono_to_str(mono: BusMono) -> (r: &'static str)
    ensures
        r@ == bus_mono_label(mono),
{
    match mono {
        BusMono::Off => "off",
        BusMono::Mono => "mono",
        BusMono::StereoReverse => "stereo_reverse",
    }
}

pub fn bus_mono_from_str(s: &str) -> (r: Option<BusMono>)
    ensures
        r == bus_mono_named(s@),
{
    if same_text(s, "off") {
        Some(BusMono::Off)
    } else if same_text(s, "mono") {
        Some(BusMono::Mono)
    } else if same_text(s, "stereo_reverse") {
        Some(BusMono::StereoReverse)
    } else {
        None
    }
}

/// Every name of a bus's mono switch is read back as what it was given for, and nothing
/// else is read as one.
pub proof fn law_bus_mono_names_round_trip(v: BusMono, s: Seq<char>)
    ensures
        bus_mono_named(bus_mono_label(v)) == Some(v),
        bus_mono_named(s) == Some(v) <==> s == bus_mono_label(v),
{
    reveal_strlit("off");
    assert("off"@.len() == 3);
    reveal_strlit("mono");
    assert("mono"@.len() == 4);
    reveal_strlit("stereo_reverse");
    assert("stereo_reverse"@.len() == 14);
}

/// The name of a bus's mode.
pub open spec fn bus_mode_label(v: BusMode) -> Seq<char> {
    match v {
        BusMode::Normal => "normal"@,
        BusMode::MixDownA => "mix_down_a"@,
        BusMode::MixDownB => "mix_down_b"@,
        BusMode::StereoRepeat => "stereo_repeat"@,
        BusMode::Composite => "composite"@,
        BusMode::UpMixTv => "up_mix_tv"@,
        BusMode::UpMix21 => "up_mix_2_1"@,
        BusMode::UpMix41 => "up_mix_4_1"@,
        BusMode::UpMix61 => "up_mix_6_1"@,
        BusMode::CenterOnly => "center_only"@,
        BusMode::LfeOnly => "lfe_only"@,
        BusMode::RearOnly => "rear_only"@,
    }
}

/// What `s` names, if it is the name of a bus's mode.
pub open spec fn bus_mode_named(s: Seq<char>) -> Option<BusMode> {
    if s == "normal"@ {
        Some(BusMode::Normal)
    } else if s == "mix_down_a"@ {
        Some(BusMode::MixDownA)
    } else if s == "mix_down_b"@ {
        Some(BusMode::MixDownB)
    } else if s == "stereo_repeat"@ {
        Some(BusMode::StereoRepeat)
    } else if s == "composite"@ {
        Some(BusMode::Composite)
    } else if s == "up_mix_tv"@ {
        Some(BusMode::UpMixTv)
    } else if s == "up_mix_2_1"@ {
        Some(BusMode::UpMix21)
    } else if s == "up_mix_4_1"@ {
        Some(BusMode::UpMix41)
    } else if s == "up_mix_6_1"@ {
        Some(BusMode::UpMix61)
    } else if s == "center_only"@ {
        Some(BusMode::CenterOnly)
    } else if s == "lfe_only"@ {
        Some(BusMode::LfeOnly)
    } else if s == "rear_only"@ {
        Some(BusMode::RearOnly)
    } else {
        None
    }
}

pub fn bus_mode_to_str(mode: BusMode) -> (r: &'static str)
    ensures
        r@ == bus_mode_label(mode),
{
    match mode {
        BusMode::Normal => "normal",
        BusMode::MixDownA => "mix_down_a",
        BusMode::MixDownB => "mix_down_b",
        BusMode::StereoRepeat => "stereo_repeat",
        BusMode::Composite => "composite",
        BusMode::UpMixTv => "up_mix_tv",
        BusMode::UpMix21 => "up_mix_2_1",
        BusMode::UpMix41 => "up_mix_4_1",
        BusMode::UpMix61 => "up_mix_6_1",
        BusMode::CenterOnly => "center_only",
        BusMode::LfeOnly => "lfe_only",
        BusMode::RearOnly => "rear_only",
    }
}

pub fn bus_mode_from_str(s: &str) -> (r: Option<BusMode>)
    ensures
        r == bus_mode_named(s@),
{
    if same_text(s, "normal") {
        Some(BusMode::Normal)
    } else if same_text(s, "mix_down_a") {
        Some(BusMode::MixDownA)
    } else if same_text(s, "mix_down_b") {
        Some(BusMode::MixDownB)
    } else if same_text(s, "stereo_repeat") {
        Some(BusMode::StereoRepeat)
    } else if same_text(s, "composite") {
        Some(BusMode::Composite)
    } else if same_text(s, "up_mix_tv") {
        Some(BusMode::UpMixTv)
    } else if same_text(s, "up_mix_2_1") {
        Some(BusMode::UpMix21)
    } else if same_text(s, "up_mix_4_1") {
        Some(BusMode::UpMix41)
    } else if same_text(s, "up_mix_6_1") {
        Some(BusMode::UpMix61)
    } else if same_text(s, "center_only") {
        Some(BusMode::CenterOnly)
    } else if same_text(s, "lfe_only") {
        Some(BusMode::LfeOnly)
    } else if same_text(s, "rear_only") {
        Some(BusMode::RearOnly)
    } else {
        None
    }
}

/// Every name of a bus's mode is read back as what it was given for, and nothing
/// else is read as one.
pub proof fn law_bus_mode_names_round_trip(v: BusMode, s: Seq<char>)
    ensures
        bus_mode_named(bus_mode_label(v)) == Some(v),
        bus_mode_named(s) == Some(v) <==> s == bus_mode_label(v),
{
    reveal_strlit("normal");
    assert("normal"@.len() == 6);
    reveal_strlit("mix_down_a");
    assert("mix_down_a"@.len() == 10);
    reveal_strlit("mix_down_b");
    assert("mix_down_b"@.len() == 10);
    reveal_strlit("stereo_repeat");
    assert("stereo_repeat"@.len() == 13);
    reveal_strlit("composite");
    assert("composite"@.len() == 9);
    reveal_strlit("up_mix_tv");
    assert("up_mix_tv"@.len() == 9);
    reveal_strlit("up_mix_2_1");
    assert("up_mix_2_1"@.len() == 10);
    reveal_strlit("up_mix_4_1");
    assert("up_mix_4_1"@.len() == 10);
    reveal_strlit("up_mix_6_1");
    assert("up_mix_6_1"@.len() == 10);
    reveal_strlit("center_only");
    assert("center_only"@.len() == 11);
    reveal_strlit("lfe_only");
    assert("lfe_only"@.len() == 8);
    reveal_strlit("rear_only");
    assert("rear_only"@.len() == 9);
    assert("mix_down_a"@[9] != "mix_down_b"@[9]);
    assert("mix_down_a"@[0] != "up_mix_2_1"@[0]);
    assert("mix_down_a"@[0] != "up_mix_4_1"@[0]);
    assert("mix_down_a"@[0] != "up_mix_6_1"@[0]);
    assert("mix_down_b"@[0] != "up_mix_2_1"@[0]);
    assert("mix_down_b"@[0] != "up_mix_4_1"@[0]);
    assert("mix_down_b"@[0] != "up_mix_6_1"@[0]);
    assert("composite"@[0] != "up_mix_tv"@[0]);
    assert("composite"@[0] != "rear_only"@[0]);
    assert("up_mix_tv"@[0] != "rear_only"@[0]);
    assert("up_mix_2_1"@[7] != "up_mix_4_1"@[7]);
    assert("up_mix_2_1"@[7] != "up_mix_6_1"@[7]);
    assert("up_mix_4_1"@[7] != "up_mix_6_1"@[7]);
}

/// The name of an Intellipan pad.
pub open spec fn intellipan_mode_label(v: IntellipanMode) -> Seq<char> {
    match v {
        IntellipanMode::Color => "color"@,
        IntellipanMode::Position => "position"@,
        IntellipanMode::Modulation => "modulation"@,
    }
}

/// What `s` names, if it is the name of an Intellipan pad.
pub open spec fn intellipan_mode_named(s: Seq<char>) -> Option<IntellipanMode> {
    if s == "color"@ {
        Some(IntellipanMode::Color)
    } else if s == "position"@ {
        Some(IntellipanMode::Position)
    } else if s == "modulation"@ {
        Some(IntellipanMode::Modulation)
    } else {
        None
    }
}

pub fn intellipan_mode_to_str(mode: IntellipanMode) -> (r: &'static str)
    ensures
        r@ == intellipan_mode_label(mode),
{
    match mode {
        IntellipanMode::Color => "color",
        IntellipanMode::Position => "position",
        IntellipanMode::Modulation => "modulation",
    }
}

pub fn intellipan_mode_from_str(s: &str) -> (r: Option<IntellipanMode>)
    ensures
        r == intellipan_mode_named(s@),
{
    if same_text(s, "color") {
        Some(IntellipanMode::Color)
    } else if same_text(s, "position") {
        Some(IntellipanMode::Position)
    } else if same_text(s, "modulation") {
        Some(IntellipanMode::Modulation)
    } else {
        None
    }
}

/// Every name of an Intellipan pad is read back as what it was given for, and nothing
/// else is read as one.
pub proof fn law_intellipan_mode_names_round_trip(v: IntellipanMode, s: Seq<char>)
    ensures
        intellipan_mode_named(intellipan_mode_label(v)) == Some(v),
        intellipan_mode_named(s) == Some(v) <==> s == intellipan_mode_label(v),
{
    reveal_strlit("color");
    assert("color"@.len() == 5);
    reveal_strlit("position");
    assert("position"@.len() == 8);
    reveal_strlit("modulation");
    assert("modulation"@.len() == 10);
}

/// The name of a karaoke setting.
pub open spec fn karaoke_mode_label(v: KaraokeMode) -> Seq<char> {
    match v {
        KaraokeMode::Off => "off"@,
        KaraokeMode::KM => "km"@,
        KaraokeMode::K1 => "k1"@,
        KaraokeMode::K2 => "k2"@,
        KaraokeMode::KV => "kv"@,
    }
}

/// What `s` names, if it is the name of a karaoke setting.
pub open spec fn karaoke_mode_named(s: Seq<char>) -> Option<KaraokeMode> {
    if s == "off"@ {
        Some(KaraokeMode::Off)
    } else if s == "km"@ {
        Some(KaraokeMode::KM)
    } else if s == "k1"@ {
        Some(KaraokeMode::K1)
    } else if s == "k2"@ {
        Some(KaraokeMode::K2)
    } else if s == "kv"@ {
        Some(KaraokeMode::KV)
    } else {
        None
    }
}

pub fn karaoke_mode_to_str(mode: KaraokeMode) -> (r: &'static str)
    ensures
        r@ == karaoke_mode_label(mode),
{
    match mode {
        KaraokeMode::Off => "off",
        KaraokeMode::KM => "km",
        KaraokeMode::K1 => "k1",
        KaraokeMode::K2 => "k2",
        KaraokeMode::KV => "kv",
    }
}

pub fn karaoke_mode_from_str(s: &str) -> (r: Option<KaraokeMode>)
    ensures
        r == karaoke_mode_named(s@),
{
    if same_text(s, "off") {
        Some(KaraokeMode::Off)
    } else if same_text(s, "km") {
        Some(KaraokeMode::KM)
    } else if same_text(s, "k1") {
        Some(KaraokeMode::K1)
    } else if same_text(s, "k2") {
        Some(KaraokeMode::K2)
    } else if same_text(s, "kv") {
        Some(KaraokeMode::KV)
    } else {
        None
    }
}

/// Every name of a karaoke setting is read back as what it was given for, and nothing
/// else is read as one.
pub proof fn law_karaoke_mode_names_round_trip(v: KaraokeMode, s: Seq<char>)
    ensures
        karaoke_mode_named(karaoke_mode_label(v)) == Some(v),
        karaoke_mode_named(s) == Some(v) <==> s == karaoke_mode_label(v),
{
    reveal_strlit("off");
    assert("off"@.len() == 3);
    reveal_strlit("km");
    assert("km"@.len() == 2);
    reveal_strlit("k1");
    assert("k1"@.len() == 2);
    reveal_strlit("k2");
    assert("k2"@.len() == 2);
    reveal_strlit("kv");
    assert("kv"@.len() == 2);
    assert("km"@[1] != "k1"@[1]);
    assert("km"@[1] != "k2"@[1]);
    assert("km"@[1] != "kv"@[1]);
    assert("k1"@[1] != "k2"@[1]);
    assert("k1"@[1] != "kv"@[1]);
    assert("k2"@[1] != "kv"@[1]);
}

/// The name of an equaliser memory.
pub open spec fn memory_label(v: Memory) -> Seq<char> {
    match v {
        Memory::A => "a"@,
        Memory::B => "b"@,
    }
}

/// What `s` names, if it is the name of an equaliser memory.
pub open spec fn memory_named(s: Seq<char>) -> Option<Memory> {
    if s == "a"@ {
        Some(Memory::A)
    } else if s == "b"@ {
        Some(Memory::B)
    } else {
        None
    }
}

pub fn memory_to_str(memory: Memory) -> (r: &'static str)
    ensures
        r@ == memory_label(memory),
{
    match memory {
        Memory::A => "a",
        Memory::B => "b",
    }
}

pub fn memory_from_str(s: &str) -> (r: Option<Memory>)
    ensures
        r == memory_named(s@),
{
    if same_text(s, "a") {
        Some(Memory::A)
    } else if same_text(s, "b") {
        Some(Memory::B)
    } else {
        None
    }
}

/// Every name of an equaliser memory is read back as what it was given for, and nothing
/// else is read as one.
pub proof fn law_memory_names_round_trip(v: Memory, s: Seq<char>)
    ensures
        memory_named(memory_label(v)) == Some(v),
        memory_named(s) == Some(v) <==> s == memory_label(v),
{
    reveal_strlit("a");
    assert("a"@.len() == 1);
    reveal_strlit("b");
    assert("b"@.len() == 1);
    assert("a"@[0] != "b"@[0]);
}

} // verus!
