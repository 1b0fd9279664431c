use loomix::strip::{topology_is_aux, topology_is_hardware, Strip};
use loomix::strip_dsp::StripChain;
use loomix::NUM_BUSES;

#[test]
fn default_strip_matches_spec_defaults() {
    let strip: Strip<f32> = Strip::for_topology_index(0);
    assert!(!strip.mute && !strip.solo && !strip.mono);
    assert!(strip.bus_assign[0]);
    assert!(strip.bus_assign[1..].iter().all(|&on| !on));
    assert!((0..NUM_BUSES).all(|b| strip.gain_layer_db(b) == 0.0));
}

#[test]
fn gain_layers_are_independent_per_bus() {
    let mut strip: Strip<f32> = Strip::for_topology_index(0);
    strip.set_gain_layer_db(3, -6.0);
    assert_eq!(strip.gain_layer_db(3), -6.0);
    assert_eq!(strip.gain_layer_db(0), 0.0);
}

#[test]
fn topology_matches_spec_1_1s_potato_layout() {
    for i in 0..5 {
        assert!(topology_is_hardware(i), "strip {i} should be hardware");
    }
    for i in 5..8 {
        assert!(!topology_is_hardware(i), "strip {i} should be virtual");
    }
    assert!(
        topology_is_aux(6),
        "strip 6 (Aux Input) should be the karaoke-capable one"
    );
    assert!(!topology_is_aux(5));
    assert!(!topology_is_aux(7));
}

#[test]
fn for_topology_index_builds_the_matching_chain_variant() {
    let hardware: Strip<f32> = Strip::for_topology_index(0);
    assert!(matches!(hardware.chain, StripChain::Hardware(_)));
    let virtual_strip: Strip<f32> = Strip::for_topology_index(5);
    assert!(matches!(virtual_strip.chain, StripChain::Virtual(_)));
}
