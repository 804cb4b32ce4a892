use free_loop::pan::{pan_for_step, Pan, CENTRE_STEP, PAN_STEPS};

/// The parts of a pan as numbers.
trait Parts {
    fn left_gain(self) -> f32;
    fn right_gain(self) -> f32;
    fn width_gain(self) -> f32;
}

impl Parts for Pan {
    fn left_gain(self) -> f32 {
        f32::from_bits(self.left())
    }

    fn right_gain(self) -> f32 {
        f32::from_bits(self.right())
    }

    fn width_gain(self) -> f32 {
        f32::from_bits(self.width())
    }
}


/// The power a centred track put out before there was anywhere else to put it.
const CENTRE_POWER: f32 = 2.0;

#[test]
fn the_middle_step_is_centre() {
    let centre = pan_for_step(CENTRE_STEP);
    assert_eq!(centre, Pan::centre());
    assert_eq!(centre.left_gain(), centre.right_gain());
    assert_eq!(centre.width_gain(), 1.0, "the source's own image is untouched");
}

#[test]
fn a_centred_track_plays_at_the_level_it_was_recorded() {
    assert_eq!(Pan::centre().left_gain(), 1.0);
    assert_eq!(Pan::centre().right_gain(), 1.0);
}

#[test]
fn the_ends_are_one_side_only() {
    let last = u8::try_from(PAN_STEPS - 1).unwrap();
    assert_eq!(pan_for_step(0).right_gain(), 0.0);
    assert_eq!(pan_for_step(last).left_gain(), 0.0);
}

#[test]
fn the_ends_sum_the_source_rather_than_dropping_a_channel() {
    let last = u8::try_from(PAN_STEPS - 1).unwrap();
    assert_eq!(pan_for_step(0).width_gain(), 0.0);
    assert_eq!(pan_for_step(last).width_gain(), 0.0);
}

#[test]
fn the_sweep_holds_its_power() {
    for step in 0..PAN_STEPS {
        let at = pan_for_step(u8::try_from(step).unwrap());
        let power = at.left_gain().mul_add(at.left_gain(), at.right_gain() * at.right_gain());
        assert!(
            (power - CENTRE_POWER).abs() < 1e-6,
            "step {step} is at {power}, not {CENTRE_POWER}"
        );
    }
}

#[test]
fn the_ladder_travels_left_to_right() {
    for step in 1..PAN_STEPS {
        let below = pan_for_step(u8::try_from(step - 1).unwrap());
        let here = pan_for_step(u8::try_from(step).unwrap());
        assert!(here.left_gain() < below.left_gain(), "step {step} does not move");
        assert!(here.right_gain() > below.right_gain(), "step {step} does not move");
    }
}

#[test]
fn the_ladder_is_a_mirror_of_itself() {
    for step in 0..PAN_STEPS {
        let left = pan_for_step(u8::try_from(step).unwrap());
        let right = pan_for_step(u8::try_from(PAN_STEPS - 1 - step).unwrap());
        assert_eq!(left.left_gain(), right.right_gain());
        assert_eq!(left.width_gain(), right.width_gain());
    }
}

#[test]
fn a_step_past_the_end_reads_as_centre() {
    assert_eq!(pan_for_step(99), Pan::centre());
}
