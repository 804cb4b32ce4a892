//! What is done to a clip that other threads may be reading.
//!
//! A clip is only ever changed through its sole reference. Whether there is another rests with
//! the other threads, so each of these takes the answer: the clip lent out, or nothing.

use vstd::prelude::*;

use crate::audio::{emptied, sealed, stored, stored_in_two, Recording};
use crate::clip::{held, Clip, ClipView, PoolView, SegmentPool};
use crate::ids::Picks;
use crate::time::Frames;

verus! {

/// Seals a take: its length is what was captured, and it is stamped as having started before it
/// did by the round trip. Returns whether it could be.
pub fn seal_take<S: Copy>(
    inner: Option<&mut Clip<S>>,
    started_at: Frames,
    at: Frames,
    offset: Frames,
) -> (r: bool)
    ensures
        r == (inner is Some),
        inner matches Some(clip) ==> final(clip)@ == sealed(
            clip@,
            started_at.0 as int,
            at.0 as int,
            offset.0 as int,
        ),
{
    match inner {
        Some(clip) => {
            // Stamping the clip as having started `offset` earlier undoes the round trip: frame
            // k holds what was played at `started_at + k - offset`, so that is the grid position
            // it belongs to.
            clip.set_len(at.saturating_sub(started_at));
            clip.set_recorded_at(started_at.saturating_sub(offset));
            clip.set_capture_offset(offset);
            true
        },
        None => false,
    }
}

/// Stores a run of a take, with silence for what the device never delivered. Returns how many
/// frames of the run were given storage, which is none where the clip cannot be written to.
pub fn store_run<S: Copy>(
    inner: Option<&mut Clip<S>>,
    recording: Recording,
    captured: &[S],
    src_channels: usize,
    run: usize,
    pool: &mut SegmentPool<S>,
) -> (r: usize)
    requires
        old(pool)@.wf(),
        old(pool)@.channels > 0,
        inner matches Some(clip) ==> clip@.wf() && clip@.channels == old(pool)@.channels,
        src_channels > 0,
        captured@.len() as int / src_channels as int <= run,
        recording.frames + run <= u64::MAX,
    ensures
        final(pool)@.wf(),
        r <= run,
        match inner {
            Some(clip) => final(clip)@ == (ClipView { buffer: final(clip)@.buffer, ..clip@ })
                && final(clip)@.wf() && stored(
                (clip@.buffer, final(clip)@.buffer),
                (old(pool)@, final(pool)@),
                recording.frames as int,
                captured@,
                src_channels as int,
                recording.input.picked(),
                run as int,
                r as int,
            ),
            None => r == 0 && final(pool)@ == old(pool)@,
        },
{
    match inner {
        Some(clip) => {
            let ghost was = clip@;
            let picks: Picks = recording.input.channels();
            proof {
                assert(picks@.len() > 0);
            }
            let written: usize = clip.write_picked(
                recording.frames,
                captured,
                src_channels,
                picks.as_slice(),
                pool,
            );
            let ghost middle = clip@.buffer;
            let ghost rest = pool@;
            // Frames the device never delivered still count in the clip's length, so they cost
            // the pool the same as recorded ones.
            let from: u64 = recording.frames + written as u64;
            let silent: usize = clip.silence(from, run - written, pool);
            let backed: usize = written + silent;
            proof {
                stored_in_two(
                    (was.buffer, clip@.buffer),
                    (old(pool)@, pool@),
                    recording.frames as int,
                    captured@,
                    src_channels as int,
                    recording.input.picked(),
                    run as int,
                    backed as int,
                    middle,
                    rest,
                    written as int,
                );
            }
            backed
        },
        None => 0,
    }
}

/// Gives a clip's storage back to the pool, and empties it for reuse. Returns whether it could
/// be.
pub fn empty_clip<S: Copy>(inner: Option<&mut Clip<S>>, pool: &mut SegmentPool<S>) -> (r: bool)
    requires
        old(pool)@.wf(),
        inner matches Some(clip) ==> clip@.wf() && clip@.channels == old(pool)@.channels,
    ensures
        r == (inner is Some),
        final(pool)@.wf(),
        match inner {
            Some(clip) => final(clip)@ == emptied(clip@) && final(pool)@ == (PoolView {
                free: old(pool)@.free + held(
                    clip@.buffer.chunks,
                    clip@.buffer.chunks.len() as int,
                ),
                ..old(pool)@
            }),
            None => final(pool)@ == old(pool)@,
        },
{
    match inner {
        Some(clip) => {
            clip.release_segments(pool);
            clip.reset();
            true
        },
        None => false,
    }
}

/// Marks a clip's storage as lent. Returns whether it could be.
pub fn lend_clip<S: Copy>(inner: Option<&mut Clip<S>>) -> (r: bool)
    ensures
        r == (inner is Some),
        inner matches Some(clip) ==> final(clip)@ == (ClipView { borrowed: true, ..clip@ }),
{
    match inner {
        Some(clip) => {
            clip.set_borrowed(true);
            true
        },
        None => false,
    }
}

/// Moves the position a clip counts as recorded at. Returns whether it could be.
pub fn move_start<S: Copy>(inner: Option<&mut Clip<S>>, at: Frames) -> (r: bool)
    ensures
        r == (inner is Some),
        inner matches Some(clip) ==> final(clip)@ == (ClipView {
            recorded_at: at.0 as int,
            ..clip@
        }),
{
    match inner {
        Some(clip) => {
            clip.set_recorded_at(at);
            true
        },
        None => false,
    }
}

/// Tells a clip how much audio it holds past its loop. Returns whether it could be.
pub fn give_tail<S: Copy>(inner: Option<&mut Clip<S>>, tail: Frames) -> (r: bool)
    ensures
        r == (inner is Some),
        inner matches Some(clip) ==> final(clip)@ == (ClipView { tail: tail.0 as int, ..clip@ }),
{
    match inner {
        Some(clip) => {
            clip.set_tail(tail);
            true
        },
        None => false,
    }
}

} // verus!
