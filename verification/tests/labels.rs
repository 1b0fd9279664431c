use loomix::bus::BusMono;
use loomix::bus_mode::BusMode;
use loomix::intellipan::IntellipanMode;
use loomix::karaoke::KaraokeMode;
use loomix::labels::{
    bus_mode_from_str, bus_mode_to_str, bus_mono_from_str, bus_mono_to_str,
    intellipan_mode_from_str, intellipan_mode_to_str, karaoke_mode_from_str, karaoke_mode_to_str,
    memory_from_str, memory_to_str,
};
use loomix::parametric_eq::Memory;
use loomix::text::{get_decimal_text, get_signed_text, join, same_text};

#[test]
fn bus_mono_names_are_read_back() {
    for mono in [BusMono::Off, BusMono::Mono, BusMono::StereoReverse] {
        assert_eq!(bus_mono_from_str(bus_mono_to_str(mono)), Some(mono));
    }
    assert_eq!(bus_mono_to_str(BusMono::StereoReverse), "stereo_reverse");
    assert_eq!(bus_mono_from_str("stereo"), None);
}

#[test]
fn bus_mode_names_are_read_back() {
    let modes = [
        BusMode::Normal,
        BusMode::MixDownA,
        BusMode::MixDownB,
        BusMode::StereoRepeat,
        BusMode::Composite,
        BusMode::UpMixTv,
        BusMode::UpMix21,
        BusMode::UpMix41,
        BusMode::UpMix61,
        BusMode::CenterOnly,
        BusMode::LfeOnly,
        BusMode::RearOnly,
    ];
    for mode in modes {
        assert_eq!(bus_mode_from_str(bus_mode_to_str(mode)), Some(mode));
    }
    assert_eq!(bus_mode_to_str(BusMode::MixDownA), "mix_down_a");
    assert_eq!(bus_mode_from_str("Normal"), None);
}

#[test]
fn strip_mode_names_are_read_back() {
    for mode in [
        IntellipanMode::Color,
        IntellipanMode::Position,
        IntellipanMode::Modulation,
    ] {
        assert_eq!(
            intellipan_mode_from_str(intellipan_mode_to_str(mode)),
            Some(mode)
        );
    }
    assert_eq!(intellipan_mode_from_str(""), None);
    for mode in [
        KaraokeMode::Off,
        KaraokeMode::KM,
        KaraokeMode::K1,
        KaraokeMode::K2,
        KaraokeMode::KV,
    ] {
        assert_eq!(karaoke_mode_from_str(karaoke_mode_to_str(mode)), Some(mode));
    }
    assert_eq!(karaoke_mode_from_str("k3"), None);
    for memory in [Memory::A, Memory::B] {
        assert_eq!(memory_from_str(memory_to_str(memory)), Some(memory));
    }
    assert_eq!(memory_from_str("c"), None);
}

#[test]
fn text_is_compared_counted_and_joined() {
    assert!(same_text("abc", "abc"));
    assert!(!same_text("abc", "abd"));
    assert!(!same_text("abc", "ab"));
    assert_eq!(get_decimal_text(0), "0");
    assert_eq!(get_decimal_text(9), "9");
    assert_eq!(get_decimal_text(1_234_567_890), "1234567890");
    assert_eq!(get_decimal_text(u64::MAX), "18446744073709551615");
    assert_eq!(get_signed_text(-50), "-50");
    assert_eq!(get_signed_text(i32::MIN), "-2147483648");
    assert_eq!(get_signed_text(7), "7");
    assert_eq!(join(&["a", "", "bc"]), "abc");
}
