use loomix::patch::{CompositeSource, Patch};

#[test]
fn default_patch_is_all_default_slots_and_switches_off() {
    let patch = Patch::default();
    assert!(patch
        .composite
        .iter()
        .all(|&s| s == CompositeSource::Default));
    assert!(!patch.composite_post_fader);
    assert!(patch.insert.iter().all(|&on| !on));
    assert!(!patch.insert_post_fx);
}

#[test]
fn composite_references_strip_only_true_for_a_referenced_strip() {
    let mut patch = Patch::default();
    patch.composite[3] = CompositeSource::Strip {
        strip: 5,
        channel: 0,
    };
    assert!(patch.composite_references_strip(5));
    assert!(!patch.composite_references_strip(0));
    assert!(!patch.composite_references_strip(3)); // slot index isn't the strip index
}

#[test]
fn all_default_slots_reference_no_strip() {
    let patch = Patch::default();
    for s in 0..8 {
        assert!(!patch.composite_references_strip(s));
    }
}
