use free_loop::gain::{gain_for_step, GAIN_STEPS, UNITY_STEP};

fn gain(step: u8) -> f32 {
    f32::from_bits(gain_for_step(step))
}


#[test]
fn the_middle_step_is_the_level_it_was_recorded_at() {
    assert_eq!(gain(UNITY_STEP), 1.0);
}

#[test]
fn the_bottom_step_is_silence() {
    assert_eq!(gain(0), 0.0);
}

#[test]
fn the_ladder_only_climbs() {
    for step in 1..GAIN_STEPS {
        let below = gain(u8::try_from(step - 1).unwrap_or(0));
        let here = gain(u8::try_from(step).unwrap_or(0));
        assert!(here > below, "step {step} does not rise");
    }
}

#[test]
fn most_of_the_ladder_is_below_unity() {
    let below = usize::from(UNITY_STEP);
    let above = GAIN_STEPS - below - 1;
    assert!(below > above);
}

#[test]
fn a_step_past_the_end_plays_untouched() {
    assert_eq!(gain(99), 1.0);
}
