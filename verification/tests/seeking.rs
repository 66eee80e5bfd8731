use playback_engine::controller::PlaybackController;
use playback_engine::events::EventKind;
use playback_engine::events::PlaybackConfig;
use playback_engine::events::RawEvent;

fn on(key: u8, time: u64) -> RawEvent {
    RawEvent { time, kind: EventKind::NoteOn, key, track: 0 }
}

fn off(key: u8, time: u64) -> RawEvent {
    RawEvent { time, kind: EventKind::NoteOff, key, track: 0 }
}

fn config_off() -> PlaybackConfig {
    PlaybackConfig { speed_thousandths: 1000, lead_in_ms: 0, offset_ms: 0, play_along: false }
}

fn required_keys(c: &PlaybackController) -> Vec<u8> {
    let mut keys = Vec::new();
    for k in 0..=255u8 {
        if c.gate.is_key_required(k) {
            keys.push(k);
        }
    }
    keys
}

#[test]
fn seek_synthesizes_implicit_off_for_open_key() {
    // a re-struck key: NoteOn at 0, NoteOn at 3, NoteOff at 5 (total 5 ms);
    // seeking to 4 ms must report the key as released, since its governing
    // NoteOn lies at or before 4 while its NoteOff lies after it
    let events = vec![on(60, 0), on(60, 3), off(60, 5)];
    let cfg = config_off();
    let mut c = PlaybackController::new(events).unwrap();
    let offs = c.seek_to_fraction_ppm(800_000, &cfg);
    assert_eq!(offs, vec![off(60, 4)]);
    assert_eq!(c.cursor.position(), 2);
    // the pending NoteOff still fires on the next tick, in due course
    let batch = c.tick(1, &cfg).unwrap();
    assert_eq!(batch, vec![off(60, 5)]);
}

#[test]
fn seek_past_noteoff_synthesizes_nothing() {
    let events = vec![on(60, 0), on(60, 3), off(60, 5)];
    let cfg = config_off();
    let mut c = PlaybackController::new(events).unwrap();
    let offs = c.seek_to_fraction_ppm(1_000_000, &cfg);
    assert!(offs.is_empty());
    assert_eq!(c.cursor.position(), 3);
}

#[test]
fn seek_fraction_is_clamped() {
    let events = vec![on(60, 0), off(60, 500)];
    let cfg = config_off();
    let mut c = PlaybackController::new(events).unwrap();
    c.seek_to_fraction_ppm(u64::MAX, &cfg);
    assert_eq!(c.time_without_lead_in(&cfg), 500);
    assert_eq!(c.cursor.position(), 2);
}

#[test]
fn seek_is_history_free() {
    // seeking to T1, then T2, then back to T1 leaves cursor and required-key
    // set exactly as a direct seek to T1 does
    let events = vec![on(60, 0), off(60, 200), on(62, 300), on(64, 300), off(62, 400), off(64, 500)];
    let cfg = config_off();
    let t1 = 550_000u64;
    let t2 = 900_000u64;

    let mut direct = PlaybackController::new(events.clone()).unwrap();
    direct.seek_to_fraction_ppm(t1, &cfg);

    let mut detour = PlaybackController::new(events).unwrap();
    detour.seek_to_fraction_ppm(t1, &cfg);
    detour.seek_to_fraction_ppm(t2, &cfg);
    detour.seek_to_fraction_ppm(t1, &cfg);

    assert_eq!(direct.cursor.position(), detour.cursor.position());
    assert_eq!(required_keys(&direct), required_keys(&detour));
}

#[test]
fn backward_seek_replays_events() {
    let events = vec![on(60, 0), off(60, 200), on(62, 300), off(62, 400)];
    let cfg = config_off();
    let mut c = PlaybackController::new(events).unwrap();
    c.tick(350, &cfg).unwrap();
    assert_eq!(c.cursor.position(), 3);
    // seek back to 100 ms (fraction 1/4 of 400): key 60 is open there, so an
    // implicit off is synthesized, and the events after 100 ms fire again
    let offs = c.seek_to_fraction_ppm(250_000, &cfg);
    assert_eq!(offs, vec![off(60, 100)]);
    assert_eq!(c.cursor.position(), 1);
    let batch = c.tick(300, &cfg).unwrap();
    assert_eq!(batch, vec![off(60, 200), on(62, 300), off(62, 400)]);
}

#[test]
fn seek_updates_required_keys() {
    let events = vec![on(60, 0), off(60, 200), on(62, 300), on(64, 300), off(62, 400), off(64, 500)];
    let cfg = config_off();
    let mut c = PlaybackController::new(events).unwrap();
    assert_eq!(required_keys(&c), vec![60]);
    c.seek_to_fraction_ppm(500_000, &cfg);
    // at 250 ms the next due instant is 300 ms with NoteOns for 62 and 64
    assert_eq!(required_keys(&c), vec![62, 64]);
}
