//! What the looper starts out as, from its settings to what is heard.

use vstd::prelude::*;

use crate::chain::{chained, linked};
use crate::command::Command;
use crate::config::Config;
use crate::control::{first_view, settings_of, Chrome, Work};
use crate::device::{negotiates, AudioConfig, ConfigRange, Plan};
use crate::engine::{fresh, obey_step, obeys, target_gain, EngineConfig};
use crate::event::Event;
use crate::gain::{ladder, UNITY_STEP};
use crate::ids::{holds, places_are_addresses, LaunchMode, SlotAddr, TrackInput};
use crate::laws::{in_step, no_ticks_at_first, settings_are_taken_whole};
use crate::settings::Settings;
use crate::time::{Tempo, TimeError, TimeSignature};
use crate::transport::{can_handle, handled, EngineView};

verus! {

/// A fresh engine stands at the start with every pad empty, nothing locked, nothing sounding, and
/// the whole of its storage free. Its clock has counted nothing.
pub proof fn a_fresh_engine_is_silent<S>(
    v: EngineView<S>,
    config: EngineConfig,
    quiet: S,
    addr: SlotAddr,
)
    requires
        v.wf(),
        fresh(v, config, quiet),
        addr.wf(),
    ensures
        v.session[addr.place()] is Empty,
        v.audio.clips[addr.place()] is None,
        target_gain(v, addr) == 0,
        !v.locked(),
        !v.paused,
        v.position.0 == 0,
        in_step(v),
        v.clock_total == 0,
        v.audio.pool.free.len() == config.segment_pool,
        v.audio.pool.spare() == config.segment_pool,
        v.audio.shells.len() == 64,
{
    places_are_addresses(addr, 0);
    no_ticks_at_first(v.grid);
    assert forall|place: int| 0 <= place < 64 implies (#[trigger] v.session[place]).held()
        is None by {}
}

/// The settings reach the engine. Built from what the settings give at the rate and the width the
/// devices agreed on, it runs at that rate, tempo and signature, starts every track on the input
/// and the launch mode asked for at unity, sounds the click if that is asked for, fades as
/// slowly as asked for, and holds as much as asked for.
pub proof fn the_engine_follows_the_settings<S>(
    config: Config,
    rate: u32,
    channels: usize,
    capture_channels: usize,
    made: Result<EngineConfig, TimeError>,
    v: EngineView<S>,
    quiet: S,
    track: int,
)
    requires
        call_ensures(Config::engine, (&config, rate, channels, capture_channels), made),
        made is Ok,
        v.wf(),
        fresh(v, made->Ok_0, quiet),
        0 <= track < 8,
    ensures
        v.grid.rate_at().rate() == rate,
        v.grid.tempo_at().bits() == config.transport.tempo,
        v.grid.beats() == config.transport.beats_per_bar,
        v.grid.signature_at().unit() == config.transport.beat_unit,
        v.channels == channels,
        v.capture_channels == capture_channels,
        v.audio.pool.capacity == config.engine.segment_pool,
        config.engine.declick_frames <= usize::MAX ==> v.declick == config.engine.declick_frames,
        v.click.on() == config.click.enabled,
        config.click.level <= 0x3F80_0000 ==> v.click.peak() == config.click.level,
        v.gains[track] == UNITY_STEP,
        v.audio.pickups[track] == 0,
        v.audio.launch_modes[track] == LaunchMode::Restart <==> config.transport.restart_clips,
        config.audio.input_channel is None ==> v.audio.inputs[track] == TrackInput::Stereo,
        config.audio.input_channel matches Some(channel) ==> channel < 256 ==> v.audio.inputs[track]
            == TrackInput::Mono(channel as u8),
        v.audio.capture_offset.0 == 0,
        v.muted == 0,
        v.soloed == 0,
{
    assert(v.audio.inputs[track] == made->Ok_0.input);
}

/// The settings reach the devices: the block size, the cushion and the latency that were set are
/// those the streams are opened with.
pub proof fn the_devices_follow_the_settings(
    config: Config,
    asked: AudioConfig,
    output_ranges: Seq<ConfigRange>,
    input_ranges: Seq<ConfigRange>,
    plan: Plan,
)
    requires
        call_ensures(Config::audio, (&config,), asked),
        negotiates(asked, output_ranges, input_ranges, Ok(plan)),
    ensures
        plan.negotiated.buffer_frames == config.audio.buffer_frames,
        plan.negotiated.capture_offset == config.audio.capture_offset_frames,
        config.audio.buffer_frames matches Some(frames) ==> 0 < frames && frames
            * config.audio.cushion_blocks <= u32::MAX ==> plan.negotiated.cushion_frames == frames
            * config.audio.cushion_blocks,
        config.audio.buffer_frames is None && 512 * config.audio.cushion_blocks <= u32::MAX
            ==> plan.negotiated.cushion_frames == 512 * config.audio.cushion_blocks,
        asked.sample_rate == config.audio.sample_rate,
        asked.channels == config.audio.channels,
{
}

/// A session that could be recorded can be loaded: what a load may hold is never less than the
/// pool, nor less than was set.
pub proof fn what_was_recorded_can_be_loaded(config: Config, budget: usize)
    requires
        call_ensures(Config::load_budget, (&config,), budget),
    ensures
        budget >= config.engine.segment_pool,
        budget >= config.engine.load_segments,
        budget == config.engine.segment_pool || budget == config.engine.load_segments,
{
}

/// The engine plays what the surface shows. Once it has taken what it was told, every track has
/// the gain, the input, the launch mode and the pickup that are shown, and a loop that sounds is
/// heard at its track's gain unless its pad is shown muted, or another is shown soloed and it is
/// not.
pub proof fn the_engine_plays_what_is_shown<S>(
    chrome: Chrome,
    v: EngineView<S>,
    w: EngineView<S>,
    events: Seq<Event>,
    addr: SlotAddr,
)
    requires
        v.wf(),
        addr.wf(),
        v.pending is None,
        handled(v, Command::SetSettings(settings_of(chrome)), w, events),
    ensures
        ({
            let track = addr.track.num();
            let heard = !holds(chrome.muted, addr) && (chrome.soloed == 0 || holds(
                chrome.soloed,
                addr,
            ));
            &&& w.gains[track] == chrome.gains[track]
            &&& w.audio.inputs[track] == chrome.inputs[track]
            &&& w.audio.launch_modes[track] == chrome.launch_modes[track]
            &&& w.audio.pickups[track] == chrome.pickups[track]
            &&& v.session[addr.place()].sounding() && heard ==> target_gain(w, addr) == ladder(
                chrome.gains[track] as int,
            )
            &&& !v.session[addr.place()].sounding() || !heard ==> target_gain(w, addr) == 0
        }),
{
    settings_are_taken_whole(v, settings_of(chrome), w, events);
    places_are_addresses(addr, 0);
}

/// A surface starts out on an empty session, with every track at unity, following the grid, on the
/// first two channels, and the tempo, the signature and the click it was given. The first thing
/// the engine is told is as much.
pub proof fn the_surface_starts_out_plain(
    tempo: Tempo,
    signature: TimeSignature,
    click: bool,
    track: int,
    place: int,
)
    requires
        0 <= track < 8,
        0 <= place < 64,
    ensures
        ({
            let v = first_view(tempo, signature, click);
            &&& v.wf()
            &&& v.session[place] is Empty
            &&& v.tempo == tempo
            &&& v.time_signature == signature
            &&& v.chrome.signature == signature
            &&& v.chrome.click_enabled == click
            &&& !v.chrome.paused
            &&& v.chrome.gains[track] == UNITY_STEP
            &&& v.chrome.inputs[track] == TrackInput::Stereo
            &&& v.chrome.launch_modes[track] == LaunchMode::Follow
            &&& v.chrome.pickups[track] == 0
            &&& v.chrome.muted == 0
            &&& v.chrome.soloed == 0
            &&& v.mode is Perform
            &&& v.work == seq![Work::Command(Command::SetSettings(settings_of(v.chrome)))]
        }),
{
    let v = first_view(tempo, signature, click);
    assert(v.work =~= seq![Work::Command(Command::SetSettings(settings_of(v.chrome)))]);
}

/// Instructions are obeyed in order: what a list comes to is what all but the last come to, and
/// then the last one, with what each reports after what was reported before.
pub proof fn instructions_are_obeyed_in_order<S>(
    v: EngineView<S>,
    commands: Seq<Command>,
    w: EngineView<S>,
    events: Seq<Event>,
) -> (mid: (EngineView<S>, Seq<Event>, Seq<Event>))
    requires
        commands.len() > 0,
        obeys(v, commands, w, events),
    ensures
        obeys(v, commands.drop_last(), mid.0, mid.1),
        can_handle(mid.0, commands.last()) ==> handled(mid.0, commands.last(), w, mid.2),
        !can_handle(mid.0, commands.last()) ==> w == mid.0 && mid.2 == Seq::<Event>::empty(),
        events == mid.1 + mid.2,
{
    let count = commands.len() as int;
    let (mid, before, here) = choose|mid: EngineView<S>, before: Seq<Event>, here: Seq<Event>|
        #[trigger] linked(mid, before, here) && events == before + here && chained(
            obey_step(commands),
            v,
            count - 1,
            mid,
            before,
        ) && obey_step::<S>(commands)(mid, count - 1, w, here);
    same_steps_same_chain(v, commands, commands.drop_last(), count - 1, mid, before);
    (mid, before, here)
}

/// Steps that are the same lead to the same.
proof fn same_steps_same_chain<S>(
    v: EngineView<S>,
    commands: Seq<Command>,
    others: Seq<Command>,
    count: int,
    w: EngineView<S>,
    events: Seq<Event>,
)
    requires
        0 <= count <= commands.len(),
        count <= others.len(),
        forall|i: int| 0 <= i < count ==> #[trigger] commands[i] == others[i],
        chained(obey_step(commands), v, count, w, events),
    ensures
        chained(obey_step(others), v, count, w, events),
    decreases count,
{
    if count > 0 {
        let (mid, before, here) = choose|mid: EngineView<S>, before: Seq<Event>, here: Seq<Event>|
            #[trigger] linked(mid, before, here) && events == before + here && chained(
                obey_step(commands),
                v,
                count - 1,
                mid,
                before,
            ) && obey_step::<S>(commands)(mid, count - 1, w, here);
        same_steps_same_chain(v, commands, others, count - 1, mid, before);
        assert(commands[count - 1] == others[count - 1]);
        assert(linked(mid, before, here));
        assert(obey_step::<S>(others)(mid, count - 1, w, here));
    }
}

/// Of several settings told in a row the last ones stand, whatever else is told before them.
pub proof fn the_last_settings_stand<S>(
    v: EngineView<S>,
    commands: Seq<Command>,
    settings: Settings,
    w: EngineView<S>,
    events: Seq<Event>,
    track: int,
)
    requires
        obeys(v, commands.push(Command::SetSettings(settings)), w, events),
        0 <= track < 8,
    ensures
        w.gains[track] == settings.gains@[track],
        w.audio.inputs[track] == settings.inputs@[track],
        w.audio.launch_modes[track] == settings.launch_modes@[track],
        w.audio.pickups[track] == settings.pickups@[track],
        w.muted == settings.muted,
        w.soloed == settings.soloed,
{
    let all = commands.push(Command::SetSettings(settings));
    let (mid, before, here) = instructions_are_obeyed_in_order(v, all, w, events);
    settings_are_taken_whole(mid, settings, w, here);
}

} // verus!
