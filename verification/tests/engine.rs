use playback_engine::controller::PlaybackController;
use playback_engine::events::EventKind;
use playback_engine::events::PlaybackConfig;
use playback_engine::events::PlaybackError;
use playback_engine::events::RawEvent;
use playback_engine::gate::KeyPressSource;

fn on(key: u8, time: u64) -> RawEvent {
    RawEvent { time, kind: EventKind::NoteOn, key, track: 0 }
}

fn off(key: u8, time: u64) -> RawEvent {
    RawEvent { time, kind: EventKind::NoteOff, key, track: 0 }
}

fn config_off() -> PlaybackConfig {
    PlaybackConfig { speed_thousandths: 1000, lead_in_ms: 0, offset_ms: 0, play_along: false }
}

fn config_on() -> PlaybackConfig {
    PlaybackConfig { speed_thousandths: 1000, lead_in_ms: 0, offset_ms: 0, play_along: true }
}

#[test]
fn construction_rejects_unsorted() {
    let events = vec![on(60, 5), off(60, 1)];
    assert_eq!(
        PlaybackController::new(events).err(),
        Some(PlaybackError::NotTimeAscending)
    );
}

#[test]
fn construction_rejects_empty() {
    assert_eq!(
        PlaybackController::new(Vec::new()).err(),
        Some(PlaybackError::ZeroDuration)
    );
}

#[test]
fn construction_rejects_zero_duration() {
    let events = vec![on(60, 0), off(60, 0)];
    assert_eq!(
        PlaybackController::new(events).err(),
        Some(PlaybackError::ZeroDuration)
    );
}

#[test]
fn single_tick_dispatches_due_events_in_order() {
    // speed 1, no offset, no lead-in, play-along off: one 600 ms tick commits
    // time 600 and yields both events, NoteOn first.
    let cfg = config_off();
    let mut c = PlaybackController::new(vec![on(60, 0), off(60, 500)]).unwrap();
    let batch = c.tick(600, &cfg).unwrap();
    assert_eq!(c.time_without_lead_in(&cfg), 600);
    assert_eq!(batch, vec![on(60, 0), off(60, 500)]);
}

#[test]
fn gate_blocks_then_dispatches_after_press() {
    // play-along on, key 60 never pressed: time stays 0 and nothing is due;
    // after pressing 60, the same tick input advances and dispatches.
    let cfg = config_on();
    let mut c = PlaybackController::new(vec![on(60, 0), off(60, 500)]).unwrap();
    let batch = c.tick(600, &cfg).unwrap();
    assert_eq!(c.time_without_lead_in(&cfg), 0);
    assert!(batch.is_empty());
    c.press_key(KeyPressSource::User, 60, true);
    let batch = c.tick(600, &cfg).unwrap();
    assert_eq!(c.time_without_lead_in(&cfg), 600);
    assert_eq!(batch, vec![on(60, 0), off(60, 500)]);
}

#[test]
fn gate_blocks_regardless_of_wall_delta() {
    let cfg = config_on();
    let mut c = PlaybackController::new(vec![on(60, 100), off(60, 500)]).unwrap();
    for delta in [1u64, 1000, u64::MAX] {
        let batch = c.tick(delta, &cfg).unwrap();
        assert!(batch.is_empty());
        assert_eq!(c.time_without_lead_in(&cfg), 0);
    }
    assert!(!c.are_required_keys_pressed());
    c.press_key(KeyPressSource::User, 60, true);
    assert!(c.are_required_keys_pressed());
    let batch = c.tick(200, &cfg).unwrap();
    assert_eq!(c.time_without_lead_in(&cfg), 200);
    assert_eq!(batch, vec![on(60, 100)]);
}

#[test]
fn key_release_reblocks_gate() {
    let cfg = config_on();
    let mut c =
        PlaybackController::new(vec![on(60, 0), off(60, 200), on(62, 300), off(62, 400)]).unwrap();
    c.press_key(KeyPressSource::User, 60, true);
    let batch = c.tick(250, &cfg).unwrap();
    assert_eq!(batch, vec![on(60, 0), off(60, 200)]);
    // key 62 is now required and unpressed: the play-along gate freezes time again
    let batch = c.tick(500, &cfg).unwrap();
    assert!(batch.is_empty());
    assert_eq!(c.time_without_lead_in(&cfg), 250);
    // pressing and releasing 62 before the tick leaves the play-along gate blocked
    c.press_key(KeyPressSource::User, 62, true);
    c.press_key(KeyPressSource::User, 62, false);
    let batch = c.tick(500, &cfg).unwrap();
    assert!(batch.is_empty());
    assert_eq!(c.time_without_lead_in(&cfg), 250);
}

#[test]
fn noteoff_precedes_noteon_at_equal_times() {
    let events = vec![on(62, 0), on(61, 100), off(62, 100), off(61, 200)];
    let cfg = config_off();
    let mut c = PlaybackController::new(events).unwrap();
    let batch = c.tick(150, &cfg).unwrap();
    assert_eq!(batch, vec![on(62, 0), off(62, 100), on(61, 100)]);
}

#[test]
fn events_fire_once_across_ticks() {
    let events = vec![on(60, 0), off(60, 500), on(62, 800)];
    let cfg = config_off();
    let mut c = PlaybackController::new(events).unwrap();
    let b1 = c.tick(500, &cfg).unwrap();
    assert_eq!(b1, vec![on(60, 0), off(60, 500)]);
    let b2 = c.tick(100, &cfg).unwrap();
    assert!(b2.is_empty());
    let b3 = c.tick(300, &cfg).unwrap();
    assert_eq!(b3, vec![on(62, 800)]);
}

#[test]
fn pause_is_idempotent_and_freezes_ticks() {
    let cfg = config_off();
    let mut c = PlaybackController::new(vec![on(60, 0), off(60, 500)]).unwrap();
    c.pause();
    c.pause();
    let batch = c.tick(1000, &cfg).unwrap();
    assert!(batch.is_empty());
    assert_eq!(c.time_without_lead_in(&cfg), 0);
    // resume does not reinject the skipped wall time
    c.resume();
    let batch = c.tick(100, &cfg).unwrap();
    assert_eq!(c.time_without_lead_in(&cfg), 100);
    assert_eq!(batch, vec![on(60, 0)]);
}

#[test]
fn toggle_pause_flips_mode() {
    let cfg = config_off();
    let mut c = PlaybackController::new(vec![on(60, 0), off(60, 500)]).unwrap();
    c.toggle_pause();
    let batch = c.tick(100, &cfg).unwrap();
    assert!(batch.is_empty());
    assert_eq!(c.time_without_lead_in(&cfg), 0);
    c.toggle_pause();
    c.tick(100, &cfg).unwrap();
    assert_eq!(c.time_without_lead_in(&cfg), 100);
}

#[test]
fn tick_returns_none_after_end() {
    let cfg = config_off();
    let mut c = PlaybackController::new(vec![on(60, 0), off(60, 500)]).unwrap();
    assert!(c.tick(600, &cfg).is_some());
    assert!(c.tick(1, &cfg).is_none());
}

#[test]
fn speed_scales_wall_delta() {
    let mut cfg = config_off();
    cfg.speed_thousandths = 500;
    let mut c = PlaybackController::new(vec![on(60, 0), off(60, 500)]).unwrap();
    c.tick(1000, &cfg).unwrap();
    assert_eq!(c.time_without_lead_in(&cfg), 500);
}

#[test]
fn zero_speed_freezes_time_without_error() {
    let mut cfg = config_off();
    cfg.speed_thousandths = 0;
    let mut c = PlaybackController::new(vec![on(60, 100), off(60, 500)]).unwrap();
    let batch = c.tick(1000, &cfg).unwrap();
    assert!(batch.is_empty());
    assert_eq!(c.time_without_lead_in(&cfg), 0);
}

#[test]
fn lead_in_delays_song_time() {
    let mut cfg = config_off();
    cfg.lead_in_ms = 1000;
    let mut c = PlaybackController::new(vec![on(60, 0), off(60, 500)]).unwrap();
    let batch = c.tick(600, &cfg).unwrap();
    assert_eq!(c.time_without_lead_in(&cfg), 0);
    assert_eq!(batch, vec![on(60, 0)]);
    c.tick(600, &cfg).unwrap();
    assert_eq!(c.time_without_lead_in(&cfg), 200);
}

#[test]
fn adjust_speed_floors_at_zero() {
    let mut cfg = config_off();
    cfg.adjust_speed(-2000);
    assert_eq!(cfg.speed_thousandths, 0);
    cfg.adjust_speed(100);
    assert_eq!(cfg.speed_thousandths, 100);
}

#[test]
fn adjust_offset_moves_both_ways() {
    let mut cfg = config_off();
    cfg.adjust_offset(-250);
    assert_eq!(cfg.offset_ms, -250);
    cfg.adjust_offset(1000);
    assert_eq!(cfg.offset_ms, 750);
}

#[test]
fn progress_reports_fraction_of_total() {
    let cfg = config_off();
    let mut c = PlaybackController::new(vec![on(60, 0), off(60, 500)]).unwrap();
    assert_eq!(c.progress_ppm(&cfg), 0);
    c.tick(250, &cfg).unwrap();
    assert_eq!(c.progress_ppm(&cfg), 500_000);
    c.tick(350, &cfg).unwrap();
    assert_eq!(c.progress_ppm(&cfg), 1_000_000);
}

#[test]
fn press_sources_merge_independently() {
    let cfg = config_on();
    let mut c = PlaybackController::new(vec![on(60, 0), off(60, 500)]).unwrap();
    c.press_key(KeyPressSource::File, 60, true);
    assert!(c.are_required_keys_pressed());
    c.press_key(KeyPressSource::User, 60, true);
    c.press_key(KeyPressSource::File, 60, false);
    // the user's claim on the key survives the file source releasing it
    assert!(c.are_required_keys_pressed());
    c.press_key(KeyPressSource::User, 60, false);
    assert!(!c.are_required_keys_pressed());
    let batch = c.tick(100, &cfg).unwrap();
    assert!(batch.is_empty());
    assert_eq!(c.time_without_lead_in(&cfg), 0);
}

#[test]
fn offset_shifts_rendered_time_not_dispatch() {
    let mut cfg = config_off();
    cfg.offset_ms = -150;
    let mut c = PlaybackController::new(vec![on(60, 0), off(60, 500)]).unwrap();
    let batch = c.tick(200, &cfg).unwrap();
    // dispatch follows the unshifted clock: the NoteOn at 0 is due
    assert_eq!(batch, vec![on(60, 0)]);
    assert_eq!(c.time_without_lead_in(&cfg), 200);
    // renderers see the shifted time
    assert_eq!(c.render_time_ms(&cfg), 50);
    cfg.adjust_offset(300);
    assert_eq!(c.render_time_ms(&cfg), 350);
}

#[test]
fn chord_requires_each_key_once() {
    // two tracks striking the same key at the same instant require it once
    let events = vec![
        RawEvent { time: 100, kind: EventKind::NoteOn, key: 60, track: 0 },
        RawEvent { time: 100, kind: EventKind::NoteOn, key: 60, track: 1 },
        RawEvent { time: 100, kind: EventKind::NoteOn, key: 64, track: 0 },
        RawEvent { time: 300, kind: EventKind::NoteOff, key: 60, track: 0 },
        RawEvent { time: 300, kind: EventKind::NoteOff, key: 60, track: 1 },
        RawEvent { time: 300, kind: EventKind::NoteOff, key: 64, track: 0 },
    ];
    let cfg = config_on();
    let mut c = PlaybackController::new(events).unwrap();
    let mut required = Vec::new();
    for k in 0..=255u8 {
        if c.gate.is_key_required(k) {
            required.push(k);
        }
    }
    assert_eq!(required, vec![60, 64]);
    c.press_key(KeyPressSource::User, 60, true);
    let batch = c.tick(50, &cfg).unwrap();
    assert!(batch.is_empty());
    c.press_key(KeyPressSource::User, 64, true);
    let batch = c.tick(150, &cfg).unwrap();
    assert_eq!(batch.len(), 3);
}

#[test]
fn restruck_key_releases_before_repress() {
    // a NoteOff and a NoteOn of the same key at one instant dispatch in
    // release-then-press order
    let events = vec![on(60, 0), off(60, 100), on(60, 100), off(60, 200)];
    let cfg = config_off();
    let mut c = PlaybackController::new(events).unwrap();
    let batch = c.tick(150, &cfg).unwrap();
    assert_eq!(batch, vec![on(60, 0), off(60, 100), on(60, 100)]);
}

#[test]
fn huge_wall_delta_saturates_without_panic() {
    let cfg = config_off();
    let mut c = PlaybackController::new(vec![on(60, 0), off(60, 500)]).unwrap();
    let batch = c.tick(u64::MAX, &cfg).unwrap();
    assert_eq!(batch.len(), 2);
    assert_eq!(c.time_without_lead_in(&cfg), u64::MAX);
    assert_eq!(c.progress_ppm(&cfg), 1_000_000);
    assert!(c.tick(1, &cfg).is_none());
}
