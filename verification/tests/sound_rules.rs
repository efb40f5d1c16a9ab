use quickclipboard_core::sound::{
    audio_idle_step, audio_on_command, audio_wait_ms, current_time_ms, is_immediate_copy_sound_suppressed, AudioLoopState, mark_paste_operation, mark_paste_operation_at, AppSounds,
    BuiltinSound, SoundPlan, SoundSettings, SoundState,
};
use std::time::{SystemTime, UNIX_EPOCH};

fn settings(copy_timing: &str, paste_timing: &str) -> SoundSettings {
    SoundSettings {
        sound_enabled: true,
        copy_sound_timing: copy_timing.to_string(),
        paste_sound_timing: paste_timing.to_string(),
        copy_sound_path: String::new(),
        paste_sound_path: "sounds/p.mp3".to_string(),
        quickpaste_scroll_sound: true,
        quickpaste_scroll_sound_path: String::new(),
    }
}

fn builtin_of(plan: &SoundPlan) -> Option<(Option<String>, BuiltinSound)> {
    match plan {
        SoundPlan::Silent => None,
        SoundPlan::Play { custom_path, builtin } => Some((custom_path.clone(), *builtin)),
    }
}

#[test]
fn current_time_ms_is_recent_epoch_millis() {
    let t = current_time_ms();
    let now_ms = SystemTime::now().duration_since(UNIX_EPOCH).unwrap_or_default().as_millis() as u64;
    assert!(t > 1_000_000_000_000);
    assert!(t <= now_ms);
    assert!(now_ms - t < 5000);
}

#[test]
fn mark_paste_operation_records_current_timestamp() {
    let mut state = SoundState::new();
    mark_paste_operation(&mut state);
    let now_ms = current_time_ms();
    assert!(state.last_paste_sound_time_ms > 0);
    assert!(state.last_paste_sound_time_ms <= now_ms);
    assert!(now_ms - state.last_paste_sound_time_ms < 1000);
}

#[test]
fn copy_immediate_suppression_boundary_is_300ms() {
    let now = current_time_ms();
    let mut state = SoundState::new();
    mark_paste_operation_at(&mut state, now - 299);
    assert!(is_immediate_copy_sound_suppressed(&state, now));
    mark_paste_operation_at(&mut state, now - 300);
    assert!(!is_immediate_copy_sound_suppressed(&state, now));
    mark_paste_operation_at(&mut state, now - 301);
    assert!(!is_immediate_copy_sound_suppressed(&state, now));
    mark_paste_operation_at(&mut state, 0);
    assert!(!is_immediate_copy_sound_suppressed(&state, now));
    mark_paste_operation_at(&mut state, now + 1000);
    assert!(is_immediate_copy_sound_suppressed(&state, now));
}

#[test]
fn paste_sound_timestamp_only_written_when_timing_gate_passes() {
    let s = settings("success", "success");
    let mut state = SoundState::new();
    let plan = AppSounds::play_paste_immediate(&s, &mut state, 5000);
    assert!(builtin_of(&plan).is_none());
    assert_eq!(state.last_paste_sound_time_ms, 0);
    let plan = AppSounds::play_paste_on_success(&s, &mut state, 5000);
    assert_eq!(
        builtin_of(&plan),
        Some((Some("sounds/p.mp3".to_string()), BuiltinSound::Paste))
    );
    assert_eq!(state.last_paste_sound_time_ms, 5000);
}

#[test]
fn copy_sound_follows_timing_and_suppression() {
    let s = settings("immediate", "success");
    let mut state = SoundState::new();
    assert!(builtin_of(&AppSounds::play_copy_on_success(&s)).is_none());
    assert_eq!(
        builtin_of(&AppSounds::play_copy_immediate(&s, &state, 10_000)),
        Some((None, BuiltinSound::Copy))
    );
    mark_paste_operation_at(&mut state, 9_900);
    assert!(builtin_of(&AppSounds::play_copy_immediate(&s, &state, 10_000)).is_none());
}

#[test]
fn disabled_sounds_are_silent() {
    let mut s = settings("success", "success");
    s.sound_enabled = false;
    assert!(builtin_of(&AppSounds::play_copy(&s)).is_none());
    assert!(builtin_of(&AppSounds::play_paste(&s)).is_none());
    assert!(builtin_of(&AppSounds::play_scroll(&s)).is_none());
    let mut s = settings("success", "success");
    s.quickpaste_scroll_sound = false;
    assert!(builtin_of(&AppSounds::play_scroll(&s)).is_none());
    s.quickpaste_scroll_sound = true;
    assert_eq!(builtin_of(&AppSounds::play_scroll(&s)), Some((None, BuiltinSound::Scroll)));
}

#[test]
fn audio_player_waits_briefly_only_while_holding_a_context() {
    assert_eq!(audio_wait_ms(true), 50);
    assert_eq!(audio_wait_ms(false), 1000);
}

#[test]
fn audio_player_makes_a_new_context_when_none_or_device_changed() {
    let mut state = AudioLoopState::new();
    state.idle_since_ms = Some(5);
    assert!(audio_on_command(&mut state, false, false));
    assert_eq!(state.idle_since_ms, None);
    assert!(audio_on_command(&mut state, true, true));
    assert!(!audio_on_command(&mut state, true, false));
}

#[test]
fn idle_audio_context_is_released_after_one_second() {
    let mut state = AudioLoopState::new();
    assert!(!audio_idle_step(&mut state, false, true, 100));
    assert_eq!(state.idle_since_ms, None);
    assert!(!audio_idle_step(&mut state, true, false, 100));
    assert_eq!(state.idle_since_ms, None);
    assert!(!audio_idle_step(&mut state, true, true, 1000));
    assert_eq!(state.idle_since_ms, Some(1000));
    assert!(!audio_idle_step(&mut state, true, true, 1999));
    assert_eq!(state.idle_since_ms, Some(1000));
    assert!(!audio_idle_step(&mut state, true, true, 500));
    assert!(audio_idle_step(&mut state, true, true, 2000));
    assert_eq!(state.idle_since_ms, None);
    assert!(!audio_idle_step(&mut state, true, true, 2050));
    assert!(!audio_idle_step(&mut state, true, false, 3100));
    assert_eq!(state.idle_since_ms, None);
}
