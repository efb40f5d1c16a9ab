//! When the copy, paste and scroll sounds play, and which source each uses.
//! Decoding and output stay with the audio player outside.
use vstd::prelude::*;
use crate::low_memory::now_unix_ms;
use crate::strs::{char_vec, str_eq};

verus! {

/// How long after a paste sound the immediate copy sound stays muted.
pub const COPY_SOUND_SUPPRESS_MS: u64 = 300;

/// When the last paste sound was played (0: never).
#[derive(Debug)]
pub struct SoundState {
    pub last_paste_sound_time_ms: u64,
}

impl SoundState {
    /// No paste sound played yet.
    pub fn new() -> (s: Self)
        ensures
            s.last_paste_sound_time_ms == 0,
    {
        SoundState { last_paste_sound_time_ms: 0 }
    }
}

/// The sound settings the decisions read.
#[derive(Debug)]
pub struct SoundSettings {
    pub sound_enabled: bool,
    pub copy_sound_timing: String,
    pub paste_sound_timing: String,
    pub copy_sound_path: String,
    pub paste_sound_path: String,
    pub quickpaste_scroll_sound: bool,
    pub quickpaste_scroll_sound_path: String,
}

/// The sounds built into the application.
#[derive(Debug, Clone, Copy, PartialEq, Eq, Structural)]
pub enum BuiltinSound {
    Copy,
    Paste,
    Scroll,
}

/// What to play: nothing, or the custom file when one is configured and
/// found, falling back to the built-in sound.
#[derive(Debug)]
pub enum SoundPlan {
    Silent,
    Play { custom_path: Option<String>, builtin: BuiltinSound },
}

/// Milliseconds since the Unix epoch.
pub fn current_time_ms() -> u64 {
    now_unix_ms()
}

/// Records a paste at `now_ms`.
pub fn mark_paste_operation_at(state: &mut SoundState, now_ms: u64)
    ensures
        final(state).last_paste_sound_time_ms == now_ms,
{
    state.last_paste_sound_time_ms = now_ms;
}

/// Records a paste now.
pub fn mark_paste_operation(state: &mut SoundState) {
    let now = current_time_ms();
    mark_paste_operation_at(state, now);
}

/// The immediate copy sound is muted within 300 ms of a paste sound (a paste
/// time in the future counts as 0 ms ago); never before any paste sound.
pub open spec fn suppressed(last_paste_ms: u64, now_ms: u64) -> bool {
    last_paste_ms > 0 && (if now_ms >= last_paste_ms { now_ms - last_paste_ms } else { 0 }) < 300
}

/// Whether the immediate copy sound is muted at `now_ms`; see `suppressed`.
pub fn is_immediate_copy_sound_suppressed(state: &SoundState, now_ms: u64) -> (r: bool)
    ensures
        r == suppressed(state.last_paste_sound_time_ms, now_ms),
{
    let last = state.last_paste_sound_time_ms;
    last > 0 && now_ms.saturating_sub(last) < COPY_SOUND_SUPPRESS_MS
}

/// The plan of a sound: silent when sounds are off, else the configured
/// file (when its path is not empty) with the built-in one as fallback.
pub open spec fn plan_is(p: SoundPlan, enabled: bool, path: Seq<char>, builtin: BuiltinSound) -> bool {
    if !enabled {
        p is Silent
    } else {
        match p {
            SoundPlan::Silent => false,
            SoundPlan::Play { custom_path, builtin: b } => b == builtin && (if path.len() == 0 {
                custom_path.is_none()
            } else {
                custom_path.is_some() && custom_path.unwrap()@ == path
            }),
        }
    }
}

fn plan_for(enabled: bool, path: &String, builtin: BuiltinSound) -> (p: SoundPlan)
    ensures
        plan_is(p, enabled, path@, builtin),
{
    if !enabled {
        return SoundPlan::Silent;
    }
    let custom_path = if char_vec(path.as_str()).len() == 0 {
        None
    } else {
        Some(path.clone())
    };
    SoundPlan::Play { custom_path, builtin }
}

/// Sound decisions of the application.
pub struct AppSounds;

impl AppSounds {
    /// The copy sound, when the copy timing is `success`.
    pub fn play_copy_on_success(settings: &SoundSettings) -> (p: SoundPlan)
        ensures
            settings.copy_sound_timing@ == "success"@ ==> plan_is(p, settings.sound_enabled, settings.copy_sound_path@, BuiltinSound::Copy),
            settings.copy_sound_timing@ != "success"@ ==> p is Silent,
    {
        if !str_eq(settings.copy_sound_timing.as_str(), "success") {
            return SoundPlan::Silent;
        }
        Self::play_copy(settings)
    }

    /// The copy sound, when the copy timing is `immediate` and no paste sound
    /// played within the last 300 ms.
    pub fn play_copy_immediate(settings: &SoundSettings, state: &SoundState, now_ms: u64) -> (p: SoundPlan)
        ensures
            (settings.copy_sound_timing@ == "immediate"@ && !suppressed(state.last_paste_sound_time_ms, now_ms))
                ==> plan_is(p, settings.sound_enabled, settings.copy_sound_path@, BuiltinSound::Copy),
            !(settings.copy_sound_timing@ == "immediate"@ && !suppressed(state.last_paste_sound_time_ms, now_ms))
                ==> p is Silent,
    {
        if !str_eq(settings.copy_sound_timing.as_str(), "immediate") {
            return SoundPlan::Silent;
        }
        if is_immediate_copy_sound_suppressed(state, now_ms) {
            return SoundPlan::Silent;
        }
        Self::play_copy(settings)
    }

    /// The paste sound, when the paste timing is `success`; the paste time is
    /// recorded exactly when the timing matches.
    pub fn play_paste_on_success(settings: &SoundSettings, state: &mut SoundState, now_ms: u64) -> (p: SoundPlan)
        ensures
            settings.paste_sound_timing@ == "success"@ ==> plan_is(p, settings.sound_enabled, settings.paste_sound_path@, BuiltinSound::Paste)
                && final(state).last_paste_sound_time_ms == now_ms,
            settings.paste_sound_timing@ != "success"@ ==> p is Silent && final(state).last_paste_sound_time_ms == old(state).last_paste_sound_time_ms,
    {
        if !str_eq(settings.paste_sound_timing.as_str(), "success") {
            return SoundPlan::Silent;
        }
        mark_paste_operation_at(state, now_ms);
        Self::play_paste(settings)
    }

    /// The paste sound, when the paste timing is `immediate`; the paste time
    /// is recorded exactly when the timing matches.
    pub fn play_paste_immediate(settings: &SoundSettings, state: &mut SoundState, now_ms: u64) -> (p: SoundPlan)
        ensures
            settings.paste_sound_timing@ == "immediate"@ ==> plan_is(p, settings.sound_enabled, settings.paste_sound_path@, BuiltinSound::Paste)
                && final(state).last_paste_sound_time_ms == now_ms,
            settings.paste_sound_timing@ != "immediate"@ ==> p is Silent && final(state).last_paste_sound_time_ms == old(state).last_paste_sound_time_ms,
    {
        if !str_eq(settings.paste_sound_timing.as_str(), "immediate") {
            return SoundPlan::Silent;
        }
        mark_paste_operation_at(state, now_ms);
        Self::play_paste(settings)
    }

    /// The copy sound, whatever the timing.
    pub fn play_copy(settings: &SoundSettings) -> (p: SoundPlan)
        ensures
            plan_is(p, settings.sound_enabled, settings.copy_sound_path@, BuiltinSound::Copy),
    {
        plan_for(settings.sound_enabled, &settings.copy_sound_path, BuiltinSound::Copy)
    }

    /// The paste sound, whatever the timing.
    pub fn play_paste(settings: &SoundSettings) -> (p: SoundPlan)
        ensures
            plan_is(p, settings.sound_enabled, settings.paste_sound_path@, BuiltinSound::Paste),
    {
        plan_for(settings.sound_enabled, &settings.paste_sound_path, BuiltinSound::Paste)
    }

    /// The quick-paste scroll sound, when sounds and the scroll sound are on.
    pub fn play_scroll(settings: &SoundSettings) -> (p: SoundPlan)
        ensures
            plan_is(
                p,
                settings.sound_enabled && settings.quickpaste_scroll_sound,
                settings.quickpaste_scroll_sound_path@,
                BuiltinSound::Scroll,
            ),
    {
        plan_for(
            settings.sound_enabled && settings.quickpaste_scroll_sound,
            &settings.quickpaste_scroll_sound_path,
            BuiltinSound::Scroll,
        )
    }
}


/// How long the audio player waits for a command while it holds an output
/// context, in milliseconds.
pub const AUDIO_POLL_INTERVAL_MS: u64 = 50;

/// How long it waits while it holds none.
pub const AUDIO_IDLE_WAIT_MS: u64 = 1000;

/// How long its output context may sit idle before it is released.
pub const AUDIO_IDLE_RELEASE_MS: u64 = 1000;

/// The audio player's own state between commands: since when its output
/// context has had nothing playing, on the player's monotonic clock in
/// milliseconds (`None`: not idle, or not looked at yet).
#[derive(Debug)]
pub struct AudioLoopState {
    pub idle_since_ms: Option<u64>,
}

impl AudioLoopState {
    /// A player that has not run yet.
    pub fn new() -> (s: Self)
        ensures
            s.idle_since_ms is None,
    {
        AudioLoopState { idle_since_ms: None }
    }
}

/// How long to wait for the next command: briefly while an output context
/// is held, so that finished sounds are noticed, else a second.
pub fn audio_wait_ms(context_present: bool) -> (r: u64)
    ensures
        r == (if context_present { 50u64 } else { 1000u64 }),
{
    if context_present {
        AUDIO_POLL_INTERVAL_MS
    } else {
        AUDIO_IDLE_WAIT_MS
    }
}

/// A command arrived: a new output context is made before playing when none
/// is held or the default output device changed since it was made (when
/// that play fails, the player makes a new context and plays once more).
/// The player is no longer idle.
pub fn audio_on_command(state: &mut AudioLoopState, context_present: bool, device_changed: bool) -> (create_first: bool)
    ensures
        create_first == (!context_present || device_changed),
        final(state).idle_since_ms is None,
{
    state.idle_since_ms = None;
    !context_present || device_changed
}

/// Milliseconds from `since` to `now`, nothing when the clock reads earlier.
pub open spec fn elapsed_ms(since: u64, now: u64) -> int {
    if now >= since {
        now - since
    } else {
        0
    }
}

/// One look at the output context after a wait, from the idle time kept so
/// far: the idle time kept next and whether to release the context. It is
/// released once it has been seen idle for at least `AUDIO_IDLE_RELEASE_MS`;
/// the first idle look only records the time, and anything playing clears
/// it. Without a context nothing changes.
pub open spec fn idle_look(since: Option<u64>, present: bool, idle: bool, now: u64) -> (Option<u64>, bool) {
    if !present {
        (since, false)
    } else if !idle {
        (None, false)
    } else {
        match since {
            None => (Some(now), false),
            Some(s) => if elapsed_ms(s, now) >= 1000 {
                (None, true)
            } else {
                (since, false)
            },
        }
    }
}

/// After each wait, with finished sounds dropped: whether to release the
/// output context; see `idle_look`.
pub fn audio_idle_step(state: &mut AudioLoopState, context_present: bool, context_idle: bool, now_ms: u64) -> (release: bool)
    ensures
        (final(state).idle_since_ms, release) == idle_look(old(state).idle_since_ms, context_present, context_idle, now_ms),
{
    if !context_present {
        return false;
    }
    if !context_idle {
        state.idle_since_ms = None;
        return false;
    }
    match state.idle_since_ms {
        None => {
            state.idle_since_ms = Some(now_ms);
            false
        },
        Some(since) => {
            if now_ms.saturating_sub(since) >= AUDIO_IDLE_RELEASE_MS {
                state.idle_since_ms = None;
                true
            } else {
                false
            }
        },
    }
}


/// The releases of an output context that stays idle, looked at at the
/// times `looks`, from the idle time `since`.
pub open spec fn idle_releases(since: Option<u64>, looks: Seq<u64>) -> Seq<bool>
    decreases looks.len(),
{
    if looks.len() == 0 {
        Seq::empty()
    } else {
        let (next, release) = idle_look(since, true, true, looks[0]);
        seq![release] + idle_releases(next, looks.skip(1))
    }
}

proof fn lemma_idle_releases_len(since: Option<u64>, looks: Seq<u64>)
    ensures
        idle_releases(since, looks).len() == looks.len(),
    decreases looks.len(),
{
    if looks.len() > 0 {
        lemma_idle_releases_len(idle_look(since, true, true, looks[0]).0, looks.skip(1));
    }
}

proof fn lemma_idle_releases(t0: u64, looks: Seq<u64>)
    ensures
        idle_releases(Some(t0), looks).len() == looks.len(),
        forall|k: int|
            0 <= k < looks.len() && (forall|j: int| 0 <= j < k ==> elapsed_ms(t0, #[trigger] looks[j]) < 1000) ==> (
            #[trigger] idle_releases(Some(t0), looks)[k] == (elapsed_ms(t0, looks[k]) >= 1000)),
    decreases looks.len(),
{
    lemma_idle_releases_len(Some(t0), looks);
    if looks.len() > 0 {
        let rest = looks.skip(1);
        lemma_idle_releases(t0, rest);
        let first = idle_look(Some(t0), true, true, looks[0]);
        if elapsed_ms(t0, looks[0]) < 1000 {
            assert(first.0 == Some(t0));
            assert forall|k: int|
                0 <= k < looks.len() && (forall|j: int| 0 <= j < k ==> elapsed_ms(t0, #[trigger] looks[j]) < 1000) implies (
                #[trigger] idle_releases(Some(t0), looks)[k] == (elapsed_ms(t0, looks[k]) >= 1000)) by {
                if k > 0 {
                    assert forall|j: int| 0 <= j < k - 1 implies elapsed_ms(t0, #[trigger] rest[j]) < 1000 by {
                        assert(rest[j] == looks[j + 1]);
                        assert(elapsed_ms(t0, looks[j + 1]) < 1000);
                    }
                    assert(rest[k - 1] == looks[k]);
                    assert(idle_releases(Some(t0), looks)[k] == idle_releases(Some(t0), rest)[k - 1]);
                }
            }
        } else {
            assert forall|k: int|
                0 <= k < looks.len() && (forall|j: int| 0 <= j < k ==> elapsed_ms(t0, #[trigger] looks[j]) < 1000) implies (
                #[trigger] idle_releases(Some(t0), looks)[k] == (elapsed_ms(t0, looks[k]) >= 1000)) by {
                if k > 0 {
                    assert(elapsed_ms(t0, looks[0]) < 1000);
                }
            }
        }
    }
}

/// An output context that stays idle is released exactly a second after it
/// was first seen idle: from a first idle look at `t0`, no later look
/// releases it until one comes at least `AUDIO_IDLE_RELEASE_MS` after `t0`,
/// and that look does.
pub proof fn law_idle_context_released_after_a_second(t0: u64, later: Seq<u64>)
    ensures
        ({
            let releases = idle_releases(None, seq![t0] + later);
            &&& releases.len() == later.len() + 1
            &&& !releases[0]
            &&& forall|k: int|
                0 <= k < later.len() && (forall|j: int| 0 <= j < k ==> elapsed_ms(t0, #[trigger] later[j]) < 1000) ==> (
                #[trigger] releases[k + 1] == (elapsed_ms(t0, later[k]) >= 1000))
        }),
{
    let looks = seq![t0] + later;
    assert(looks[0] == t0);
    assert(looks.skip(1) =~= later);
    lemma_idle_releases(t0, later);
    let releases = idle_releases(None, looks);
    assert(releases == seq![false] + idle_releases(Some(t0), later));
    assert forall|k: int|
        0 <= k < later.len() && (forall|j: int| 0 <= j < k ==> elapsed_ms(t0, #[trigger] later[j]) < 1000) implies (
        #[trigger] releases[k + 1] == (elapsed_ms(t0, later[k]) >= 1000)) by {
        assert(releases[k + 1] == idle_releases(Some(t0), later)[k]);
    }
}
} // verus!
