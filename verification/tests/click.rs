use free_loop::click::{Click, ClickConfig, Tone};
use free_loop::time::SampleRate;

/// Adds what is left of the click's blip into a block, as an oscillator under its envelope
/// does.
fn add_into(click: &mut Click, dst: &mut [f32], channels: usize) {
    let step = std::f32::consts::TAU * 1_000.0 / 48_000.0;
    let blip = click.play(dst.len() / channels);
    for (index, frame) in dst.chunks_mut(channels).take(blip.frames).enumerate() {
        let fraction = (blip.remaining - index as u32) as f32 / blip.length as f32;
        let level = f32::from_bits(blip.level);
        let sample = level * fraction * fraction * (step * index as f32).sin();
        for out in frame.iter_mut() {
            *out += sample;
        }
    }
}

fn click() -> Click {
    Click::new(ClickConfig::default(), SampleRate::new(48_000).unwrap())
}

fn peak(samples: &[f32]) -> f32 {
    samples.iter().fold(0.0_f32, |acc, s| acc.max(s.abs()))
}

#[test]
fn a_silent_generator_leaves_the_output_alone() {
    let mut click = click();
    let mut out = vec![0.0; 128];
    add_into(&mut click, &mut out, 2);
    assert_eq!(peak(&out), 0.0);
}

#[test]
fn a_blip_sounds_then_stops() {
    let mut click = click();
    click.trigger(Tone::Beat);
    assert!(click.is_sounding());

    // 18 ms at 48 kHz is 864 frames.
    let mut out = vec![0.0; 864 * 2];
    add_into(&mut click, &mut out, 2);
    assert!(peak(&out) > 0.0);
    assert!(!click.is_sounding());

    let mut after = vec![0.0; 128];
    add_into(&mut click, &mut after, 2);
    assert_eq!(peak(&after), 0.0);
}

#[test]
fn the_envelope_decays_to_zero() {
    let mut click = click();
    click.trigger(Tone::Accent);
    let mut out = vec![0.0; 4_000 * 2];
    add_into(&mut click, &mut out, 2);

    // 28 ms at 48 kHz is 1344 frames, so the tail is silent well before frame 2000.
    let first = peak(&out[..200]);
    let last = peak(&out[2_000 * 2..]);
    assert!(first > last, "{first} should exceed {last}");
    assert_eq!(last, 0.0, "the blip must end in silence");
}

#[test]
fn the_accent_is_longer_than_the_other_beats() {
    let mut accented = click();
    accented.trigger(Tone::Accent);
    let mut plain = click();
    plain.trigger(Tone::Beat);

    let mut a = vec![0.0; 4_000 * 2];
    let mut b = vec![0.0; 4_000 * 2];
    add_into(&mut accented, &mut a, 2);
    add_into(&mut plain, &mut b, 2);

    let tail = |v: &[f32]| v.iter().rposition(|s| *s != 0.0).unwrap_or(0);
    assert!(tail(&a) > tail(&b));
}

#[test]
fn the_click_is_written_to_every_channel() {
    let mut click = click();
    click.trigger(Tone::Accent);
    let mut out = vec![0.0; 64 * 2];
    add_into(&mut click, &mut out, 2);

    for frame in out.chunks(2) {
        assert_eq!(frame[0], frame[1]);
    }
}

#[test]
fn disabling_cuts_a_sounding_blip() {
    let mut click = click();
    click.trigger(Tone::Accent);
    click.set_enabled(false);
    assert!(!click.is_sounding());

    click.trigger(Tone::Accent);
    assert!(!click.is_sounding(), "a disabled click cannot be triggered");
}

#[test]
fn level_is_clamped_and_applied() {
    let mut click = click();
    click.set_level(10.0_f32.to_bits());
    click.trigger(Tone::Accent);
    let mut out = vec![0.0; 2_000 * 2];
    add_into(&mut click, &mut out, 2);
    assert!(peak(&out) <= 1.0);

    let mut quiet = click;
    quiet.set_level(0.0_f32.to_bits());
    quiet.trigger(Tone::Accent);
    let mut out = vec![0.0; 2_000 * 2];
    add_into(&mut quiet, &mut out, 2);
    assert_eq!(peak(&out), 0.0);
}
