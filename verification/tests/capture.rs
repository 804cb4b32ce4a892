use free_loop::capture::{capture_ring, ChannelMap, MAX_BLOCK_FRAMES};
use free_loop::ids::INPUT_CHANNELS;

#[test]
fn stereo_passes_straight_through() {
    let map = ChannelMap::whole(2);
    let mut dst = [0.0; 4];
    assert_eq!(map.map(&[1.0_f32, 2.0, 3.0, 4.0], &mut dst), 2);
    assert_eq!(dst, [1.0, 2.0, 3.0, 4.0]);
}

#[test]
fn a_one_channel_device_delivers_one_channel() {
    let map = ChannelMap::whole(1);
    let mut dst = [0.0; 2];
    assert_eq!(map.map(&[1.0_f32, 2.0], &mut dst), 2);
    assert_eq!(dst, [1.0, 2.0]);
}

#[test]
fn every_channel_a_track_could_pick_arrives() {
    let map = ChannelMap::whole(4);
    let mut dst = [0.0; 8];
    let frames = map.map(&[1.0_f32, 2.0, 3.0, 4.0, 5.0, 6.0, 7.0, 8.0], &mut dst);
    assert_eq!(frames, 2);
    assert_eq!(dst, [1.0, 2.0, 3.0, 4.0, 5.0, 6.0, 7.0, 8.0]);
}

#[test]
fn extra_device_channels_are_dropped() {
    let map = ChannelMap::new(4, 2);
    let mut dst = [0.0; 4];
    assert_eq!(
        map.map(&[1.0_f32, 2.0, 3.0, 4.0, 5.0, 6.0, 7.0, 8.0], &mut dst),
        2
    );
    assert_eq!(dst, [1.0, 2.0, 5.0, 6.0]);
}

#[test]
fn capture_is_bounded_by_what_a_track_can_choose() {
    let map = ChannelMap::whole(32);
    assert_eq!(map.capture(), INPUT_CHANNELS);
    assert_eq!(map.device(), 32);
}

#[test]
fn capture_never_claims_channels_the_device_lacks() {
    let map = ChannelMap::whole(1);
    assert_eq!(map.capture(), 1);
}

#[test]
fn mapping_stops_at_the_shorter_slice() {
    let map = ChannelMap::whole(2);
    let mut dst = [0.0; 2];
    assert_eq!(map.map(&[1.0_f32, 2.0, 3.0, 4.0], &mut dst), 1);
}

#[test]
fn reads_return_nothing_until_the_cushion_is_built() {
    let map = ChannelMap::whole(2);
    let (mut writer, mut reader) = capture_ring(8_192, 128, map, 0.0_f32);

    writer.write(&vec![0.5_f32; 64 * 2]);
    let mut dst = [0.0; 64 * 2];
    assert_eq!(reader.read(&mut dst), 0, "64 frames is under the cushion");
    assert!(!reader.is_primed());

    writer.write(&vec![0.5_f32; 64 * 2]);
    assert_eq!(reader.read(&mut dst), 128);
    assert!(reader.is_primed());
}

#[test]
fn once_primed_a_short_ring_gives_a_short_read() {
    let map = ChannelMap::whole(2);
    let (mut writer, mut reader) = capture_ring(8_192, 32, map, 0.0_f32);

    writer.write(&vec![1.0_f32; 40 * 2]);
    let mut dst = [0.0; 64 * 2];
    assert_eq!(reader.read(&mut dst), 40 * 2);
    assert_eq!(reader.read(&mut dst), 0, "the ring is empty, not unprimed");
    assert!(reader.is_primed());
}

#[test]
fn reads_are_whole_frames() {
    let map = ChannelMap::whole(2);
    let (mut writer, mut reader) = capture_ring(8_192, 0, map, 0.0_f32);

    writer.write(&vec![1.0_f32; 3 * 2]);
    let mut dst = [0.0; 8];
    assert_eq!(reader.read(&mut dst) % 2, 0);
}

#[test]
fn a_stalled_reader_makes_the_writer_drop() {
    let map = ChannelMap::whole(2);
    let (mut writer, reader) = capture_ring(256, 0, map, 0.0_f32);
    drop(reader);

    let capacity = 4_096 + 256;
    let dropped = writer.write(&vec![1.0_f32; (capacity + 100) * 2]);
    assert!(dropped > 0, "the ring should have overflowed");
    assert_eq!(writer.dropped(), dropped as u64);
}

#[test]
fn a_block_larger_than_the_scratch_is_written_in_runs() {
    let map = ChannelMap::whole(2);
    let frames = MAX_BLOCK_FRAMES + 500;
    let (mut writer, reader) = capture_ring(frames * 2, 0, map, 0.0_f32);

    assert_eq!(writer.write(&vec![0.25_f32; frames * 2]), 0);
    assert_eq!(reader.available_frames(), frames);
}
