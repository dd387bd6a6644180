use std::sync::Arc;

use livekit_portal::double::Double;
use livekit_portal::field_map::FieldMap;
use livekit_portal::pull;
use livekit_portal::sync_buffer::{SyncBuffer, SyncOutput};
use livekit_portal::sync_model::SyncEvent;
use livekit_portal::types::{Observation, SyncConfig, VideoFrameData};

fn d(v: f64) -> Double {
    Double::from_bits(v.to_bits())
}

fn row(vs: &[f64]) -> Vec<Double> {
    vs.iter().map(|v| d(*v)).collect()
}

fn value(map: &FieldMap<Double>, name: &str) -> f64 {
    f64::from_bits(map.get(name).unwrap().to_bits())
}

fn frame_ts(o: &Observation, name: &str) -> u64 {
    o.frames.get(name).unwrap().timestamp_us
}

fn make_frame(ts: u64) -> Arc<VideoFrameData> {
    Arc::new(VideoFrameData { width: 2, height: 2, data: vec![0u8; 6], timestamp_us: ts })
}

fn names(list: &[&str]) -> Vec<String> {
    list.iter().map(|n| n.to_string()).collect()
}

fn push_f(buf: &mut SyncBuffer, track: &str, ts: u64) -> SyncOutput {
    buf.push_frame(track, make_frame(ts))
}

fn mk(tracks: &[&str], fields: &[&str], config: SyncConfig) -> SyncBuffer {
    SyncBuffer::new(&names(tracks), names(fields), config)
}

fn mk_pull(tracks: &[&str], fields: &[&str], config: SyncConfig) -> pull::SyncBuffer {
    pull::SyncBuffer::new(&names(tracks), names(fields), config)
}

fn narrow(range: u64) -> SyncConfig {
    SyncConfig {
        video_buffer_size: 10,
        state_buffer_size: 10,
        search_range_us: range,
        observation_buffer_size: 10,
        ..Default::default()
    }
}

#[test]
fn sync_buffer_sync_single_track() {
    let mut buf = mk(&["cam1"], &["j1", "j2"], SyncConfig::default());

    assert!(push_f(&mut buf, "cam1", 1000).observations.is_empty());

    let out = buf.push_state(1010, row(&[1.0, 2.0]));
    assert_eq!(out.observations.len(), 1);
    let obs = &out.observations[0];
    assert_eq!(value(&obs.state, "j1"), 1.0);
    assert_eq!(value(&obs.state, "j2"), 2.0);
    assert_eq!(obs.timestamp_us, 1010);

    let mut buf = mk_pull(&["cam1"], &["j1", "j2"], SyncConfig::default());
    buf.push_frame("cam1", make_frame(1000));
    let obs = buf.push_state(1010, row(&[1.0, 2.0])).observations;
    assert_eq!(obs.len(), 1);
    assert_eq!(value(&obs[0].state, "j1"), 1.0);
    assert_eq!(value(&obs[0].state, "j2"), 2.0);
    assert_eq!(obs[0].timestamp_us, 1010);
}

#[test]
fn sync_buffer_sync_multi_track() {
    let mut buf = mk(&["cam1", "cam2"], &["j1"], SyncConfig::default());

    assert!(push_f(&mut buf, "cam1", 1000).observations.is_empty());
    assert!(buf.push_state(1005, row(&[5.0])).observations.is_empty());

    let out = push_f(&mut buf, "cam2", 1002);
    assert_eq!(out.observations.len(), 1);
    assert!(out.observations[0].frames.contains_key("cam1"));
    assert!(out.observations[0].frames.contains_key("cam2"));

    let mut buf = mk_pull(&["cam1", "cam2"], &["j1"], SyncConfig::default());
    let mut observations = Vec::new();
    observations.extend(buf.push_frame("cam1", make_frame(1000)).observations);
    observations.extend(buf.push_state(1005, row(&[5.0])).observations);
    assert_eq!(observations.len(), 0);
    observations.extend(buf.push_frame("cam2", make_frame(1002)).observations);
    assert_eq!(observations.len(), 1);
}

#[test]
fn sync_buffer_drop_unsyncable_state() {
    let mut buf = mk(&["cam1"], &["j1"], SyncConfig::default());

    assert!(buf.push_state(100, row(&[1.0])).is_empty());
    let out = push_f(&mut buf, "cam1", 200_000);
    assert!(out.observations.is_empty());
    assert_eq!(out.drops.len(), 1);
    assert_eq!(value(&out.drops[0], "j1"), 1.0);

    let mut buf = mk_pull(&["cam1"], &["j1"], SyncConfig::default());
    let mut drops = buf.push_state(100, row(&[1.0])).drops;
    drops.extend(buf.push_frame("cam1", make_frame(200_000)).drops);
    assert_eq!(drops.len(), 1);
    assert_eq!(value(&drops[0], "j1"), 1.0);
}

#[test]
fn sync_buffer_out_of_range_waits() {
    let mut buf = mk(&["cam1"], &["j1"], SyncConfig::default());

    assert!(buf.push_state(50_000, row(&[1.0])).is_empty());
    let out = push_f(&mut buf, "cam1", 50_010);
    assert_eq!(out.observations.len(), 1);

    let mut buf = mk_pull(&["cam1"], &["j1"], SyncConfig::default());
    assert_eq!(buf.push_state(50_000, row(&[1.0])).observations.len(), 0);
    assert_eq!(buf.push_frame("cam1", make_frame(50_010)).observations.len(), 1);
}

#[test]
fn sync_buffer_buffer_overflow_evicts_oldest() {
    let config = SyncConfig { video_buffer_size: 2, state_buffer_size: 2, ..Default::default() };
    let mut buf = mk(&["cam1"], &["j1"], config);

    for ts in [100, 200, 300] {
        let _ = push_f(&mut buf, "cam1", ts);
    }

    let cam_buf = buf.video_buffer(buf.track_index("cam1").unwrap());
    assert_eq!(cam_buf.len(), 2);
    assert_eq!(cam_buf[0].timestamp_us, 200);
    assert_eq!(cam_buf[1].timestamp_us, 300);

    let mut buf = mk_pull(&["cam1"], &["j1"], config);
    for ts in [100, 200, 300] {
        buf.push_frame("cam1", make_frame(ts));
    }
    let cam_buf = buf.video_buffer(0);
    assert_eq!(cam_buf.len(), 2);
    assert_eq!(cam_buf[0].timestamp_us, 200);
    assert_eq!(cam_buf[1].timestamp_us, 300);
}

#[test]
fn sync_buffer_clear_flushes_all() {
    let mut buf = mk(&["cam1"], &["j1"], SyncConfig::default());

    let _ = push_f(&mut buf, "cam1", 1000);
    let _ = buf.push_state(1000, row(&[1.0]));
    buf.clear();

    assert!(buf.video_buffer(0).is_empty());
    assert_eq!(buf.state_fill(), 0);
    assert_eq!(buf.cursor(0), 0);
    assert!(buf.blocker().is_none());

    let mut buf = mk_pull(&["cam1"], &["j1"], SyncConfig::default());
    buf.push_frame("cam1", make_frame(1000));
    buf.push_state(1000, row(&[1.0]));
    buf.clear();
    assert!(buf.video_buffer(0).is_empty());
    assert_eq!(buf.state_fill(), 0);
    assert_eq!(buf.observation_fill(), 0);
}

/// Cursor should pick the closest frame even when many are in the buffer.
#[test]
fn cursor_picks_closest_among_many() {
    let mut buf = mk(&["cam1"], &["j1"], SyncConfig::default());

    for ts in [1_000u64, 2_000, 3_000, 4_000, 5_000] {
        let _ = push_f(&mut buf, "cam1", ts);
    }

    // Closest to 3_010 within search_range is 3_000.
    let out = buf.push_state(3_010, row(&[7.0]));
    assert_eq!(out.observations.len(), 1);
    assert_eq!(frame_ts(&out.observations[0], "cam1"), 3_000);
}

/// Cursor should advance monotonically across many sequential syncs.
#[test]
fn cursor_advances_across_sequential_matches() {
    let config = SyncConfig { video_buffer_size: 100, ..Default::default() };
    let mut buf = mk(&["cam1"], &["j1"], config);

    // Push 10 frames at 1000us intervals.
    for i in 0..10 {
        let _ = push_f(&mut buf, "cam1", 1_000 + i * 1_000);
    }
    // Match each with a state, each state should consume one frame.
    let mut matched_ts = Vec::new();
    for i in 0..10 {
        let out = buf.push_state(1_010 + i * 1_000, row(&[i as f64]));
        assert_eq!(out.observations.len(), 1, "state #{} should produce 1 obs", i);
        matched_ts.push(frame_ts(&out.observations[0], "cam1"));
    }
    assert_eq!(matched_ts, (0..10).map(|i| 1_000 + i * 1_000).collect::<Vec<_>>());
}

/// Eviction beyond capacity must decrement cursor so it remains valid.
#[test]
fn eviction_adjusts_cursor() {
    let config = SyncConfig { video_buffer_size: 3, ..Default::default() };
    let mut buf = mk(&["cam1"], &["j1"], config);

    for ts in [1_000u64, 2_000, 3_000] {
        let _ = push_f(&mut buf, "cam1", ts);
    }
    let out = buf.push_state(3_010, row(&[0.0]));
    assert_eq!(out.observations.len(), 1);
    // Buffer should now be empty (drained up to idx 2).
    assert!(buf.video_buffer(0).is_empty());
    assert_eq!(buf.cursor(0), 0);

    // Now push frames beyond capacity; cursor stays 0 (never advances past len).
    for ts in [4_000u64, 5_000, 6_000, 7_000] {
        let _ = push_f(&mut buf, "cam1", ts);
    }
    assert_eq!(buf.video_buffer(0).len(), 3);
    assert_eq!(buf.video_buffer(0)[0].timestamp_us, 5_000);
}

/// Non-blocker push should defer the look, but a subsequent push to the blocker must still
/// produce the observation (no lost state).
#[test]
fn non_blocker_push_defers_but_converges() {
    let mut buf = mk(&["cam1", "cam2"], &["j1"], SyncConfig::default());

    // State + cam2 present; cam1 empty, so cam1 is the blocker.
    assert!(buf.push_state(1_000, row(&[1.0])).is_empty());
    assert!(push_f(&mut buf, "cam2", 1_005).is_empty());
    assert_eq!(buf.blocker(), Some(buf.track_index("cam1").unwrap()));

    // Push another cam2 frame, which is not the blocker.
    assert!(push_f(&mut buf, "cam2", 1_006).is_empty());
    assert_eq!(buf.video_buffer(buf.track_index("cam2").unwrap()).len(), 2);

    // Now push to the blocker: the observation must fire.
    let out = push_f(&mut buf, "cam1", 1_008);
    assert_eq!(out.observations.len(), 1);
    assert!(buf.blocker().is_none());
}

/// If eviction on a non-blocker track removes the only in-range frame, the state must drop
/// (not silently stall).
#[test]
fn eviction_on_non_blocker_can_trigger_drop() {
    let config = SyncConfig {
        video_buffer_size: 1,
        state_buffer_size: 10,
        search_range_us: 30_000,
        observation_buffer_size: 10,
        ..Default::default()
    };
    let mut buf = mk(&["cam1", "cam2"], &["j1"], config);

    // State at 1_000; cam1 empty (blocker); cam2 has a frame in range.
    assert!(buf.push_state(1_000, row(&[1.0])).is_empty());
    assert!(push_f(&mut buf, "cam2", 1_005).is_empty());
    assert_eq!(buf.blocker(), Some(buf.track_index("cam1").unwrap()));

    // A far newer cam2 frame evicts the one in range; the state must be given up even though
    // cam2 is not the blocker.
    let out = push_f(&mut buf, "cam2", 500_000);
    assert!(out.observations.is_empty());
    assert_eq!(out.drops.len(), 1, "state should be dropped once its cam2 match is evicted");
}

/// Out-of-order state timestamps must still find the correct match via cursor rewind.
#[test]
fn out_of_order_state_rewinds_cursor() {
    let mut buf = mk(&["cam1"], &["j1"], SyncConfig::default());

    // Pre-populate frames spanning a wide range.
    for ts in [1_000u64, 5_000, 10_000, 50_000, 100_000] {
        let _ = push_f(&mut buf, "cam1", ts);
    }

    // First match at high ts advances cursor forward.
    let out = buf.push_state(100_005, row(&[0.0]));
    assert_eq!(out.observations.len(), 1);
    assert_eq!(frame_ts(&out.observations[0], "cam1"), 100_000);

    // Re-populate so there's a frame near an earlier ts, then push an earlier state.
    let _ = push_f(&mut buf, "cam1", 200_000);
    let _ = push_f(&mut buf, "cam1", 200_005);
    let out = buf.push_state(200_002, row(&[0.0]));
    assert_eq!(out.observations.len(), 1);
    assert_eq!(frame_ts(&out.observations[0], "cam1"), 200_000);
}

/// States that pile up are emitted as their frames arrive.
#[test]
fn multi_state_batch_emits_together() {
    let mut buf = mk(&["cam1"], &["j1"], SyncConfig::default());

    for ts in [1_000u64, 2_000, 3_000] {
        let _ = buf.push_state(ts, row(&[ts as f64]));
    }
    let _ = push_f(&mut buf, "cam1", 1_005);
    let _ = push_f(&mut buf, "cam1", 2_005);
    let out = push_f(&mut buf, "cam1", 3_005);
    assert_eq!(out.observations.len(), 1, "only the final push should complete the batch");
    // All three states should be fully drained.
    assert_eq!(buf.state_fill(), 0);
}

/// After a successful match the blocker must clear so the next unrelated track push is looked
/// at.
#[test]
fn blocker_clears_after_match() {
    let mut buf = mk(&["cam1", "cam2"], &["j1"], SyncConfig::default());

    assert!(buf.push_state(1_000, row(&[1.0])).is_empty());
    assert!(push_f(&mut buf, "cam1", 1_002).is_empty());
    // cam2 is now blocker.
    assert_eq!(buf.blocker(), Some(buf.track_index("cam2").unwrap()));

    let out = push_f(&mut buf, "cam2", 1_005);
    assert_eq!(out.observations.len(), 1);
    assert!(buf.blocker().is_none(), "blocker must reset after successful match");
}

/// State eviction pushing a new head state clears the blocker so the new head gets
/// re-evaluated immediately.
#[test]
fn state_eviction_updates_head_and_clears_blocker() {
    let config = SyncConfig { state_buffer_size: 1, ..Default::default() };
    let mut buf = mk(&["cam1"], &["j1"], config);

    // No frames yet: both states wait, and the second evicts the first.
    assert!(buf.push_state(1_000, row(&[1.0])).is_empty());
    assert_eq!(buf.blocker(), Some(0));
    assert!(buf.push_state(2_000, row(&[2.0])).is_empty());

    // Only the second state remains. A frame matching it fires the obs.
    let out = push_f(&mut buf, "cam1", 2_005);
    assert_eq!(out.observations.len(), 1);
    assert_eq!(
        value(&out.observations[0].state, "j1"),
        2.0,
        "evicted state should not leak through"
    );
    assert_eq!(out.observations[0].timestamp_us, 2_000);
}

/// Drop must fire when the *newest* frame is past the horizon, even if an older frame is still
/// buffered below the match window.
#[test]
fn drop_triggers_on_back_past_horizon() {
    let mut buf = mk(&["cam1"], &["j1"], narrow(500));

    let _ = push_f(&mut buf, "cam1", 1_000); // far below state - range (2_500)
    assert!(buf.push_state(3_000, row(&[1.0])).is_empty());

    let out = push_f(&mut buf, "cam1", 5_000);
    assert!(out.observations.is_empty());
    assert_eq!(out.drops.len(), 1, "state should drop as soon as back passes horizon");
}

/// Boundary: a frame landing exactly at `state_ts + range` is not a match (strict `<`), and all
/// future frames are no earlier, so the state drops.
#[test]
fn drop_fires_at_exact_range_boundary() {
    let mut buf = mk(&["cam1"], &["j1"], narrow(500));

    assert!(buf.push_state(1_000, row(&[1.0])).is_empty());
    let out = push_f(&mut buf, "cam1", 1_500); // delta == range, not a match
    assert!(out.observations.is_empty());
    assert_eq!(out.drops.len(), 1);
}

/// Many empty and partial looks should never panic or produce spurious observations.
#[test]
fn stress_no_spurious_observations() {
    let mut buf = mk(&["cam1", "cam2"], &["j1"], SyncConfig::default());

    let mut total_obs = 0;
    for i in 0..100u64 {
        let ts = 1_000 + i * 1_000;
        let out1 = push_f(&mut buf, "cam1", ts);
        let out2 = push_f(&mut buf, "cam2", ts + 100);
        let out3 = buf.push_state(ts + 50, row(&[i as f64]));
        total_obs += out1.observations.len();
        total_obs += out2.observations.len();
        total_obs += out3.observations.len();
    }
    assert_eq!(total_obs, 100);
}

#[test]
fn take_observations_drains_buffer() {
    let mut buf = mk_pull(&["cam1"], &["j1"], SyncConfig::default());

    for ts in [1000u64, 2000, 3000] {
        buf.push_frame("cam1", make_frame(ts));
        buf.push_state(ts, row(&[ts as f64]));
    }

    let obs = buf.take_observations();
    assert_eq!(obs.len(), 3);
    assert!(buf.take_observations().is_empty());
}

#[test]
fn observation_buffer_evicts_oldest() {
    let config = SyncConfig { observation_buffer_size: 2, ..Default::default() };
    let mut buf = mk_pull(&["cam1"], &["j1"], config);

    for ts in [1000u64, 2000, 3000] {
        buf.push_frame("cam1", make_frame(ts));
        buf.push_state(ts, row(&[ts as f64]));
    }

    let obs = buf.take_observations();
    assert_eq!(obs.len(), 2);
    assert_eq!(obs[0].timestamp_us, 2000);
    assert_eq!(obs[1].timestamp_us, 3000);
}

#[test]
fn defaults_are_the_documented_ones() {
    let config = SyncConfig::default();
    assert_eq!(config.video_buffer_size, 30);
    assert_eq!(config.state_buffer_size, 30);
    assert_eq!(config.search_range_us, 30_000);
    assert_eq!(config.observation_buffer_size, 10);
    assert!(!config.reuse_stale_frames);
}

#[test]
fn events_tell_what_happened() {
    let config = SyncConfig { video_buffer_size: 1, state_buffer_size: 1, ..Default::default() };
    let mut buf = mk(&["cam1", "cam2"], &["j1"], config);
    assert_eq!(buf.push_state(1_000, row(&[1.0])).events, vec![SyncEvent::Blocked { track: 0 }]);
    // The older state gives way: it settles nothing, but it is counted and handed out.
    let out = buf.push_state(2_000, row(&[2.0]));
    assert!(out.is_empty());
    assert_eq!(out.evicted.len(), 1);
    assert_eq!(value(&out.evicted[0], "j1"), 1.0);
    assert_eq!(
        out.events,
        vec![SyncEvent::StatesDropped { count: 1 }, SyncEvent::Blocked { track: 0 }]
    );
    let out = push_f(&mut buf, "cam1", 2_003);
    assert_eq!(out.events, vec![SyncEvent::Blocked { track: 1 }]);
    let out = push_f(&mut buf, "cam2", 1_990);
    assert_eq!(out.events, vec![SyncEvent::Observed { worst_delta_us: 10, stale: false }]);
    push_f(&mut buf, "cam1", 3_000);
    let out = push_f(&mut buf, "cam1", 4_000);
    assert_eq!(out.events, vec![SyncEvent::FramesEvicted { track: 0, count: 1 }]);
}

#[test]
fn matched_frames_and_older_ones_leave() {
    let mut buf = mk(&["cam1"], &["j1"], narrow(5_000));
    for ts in [1_000u64, 2_000, 3_000] {
        push_f(&mut buf, "cam1", ts);
    }
    let out = buf.push_state(2_100, row(&[0.0]));
    assert_eq!(frame_ts(&out.observations[0], "cam1"), 2_000);
    assert_eq!(buf.video_buffer(0).len(), 1);
    assert_eq!(buf.video_buffer(0)[0].timestamp_us, 3_000);
    assert_eq!(*buf.video_fill_snapshot().get("cam1").unwrap(), 1);
}

#[test]
fn a_frame_between_two_states_serves_the_first() {
    let mut buf = mk(&["cam1"], &["j1"], narrow(500));
    buf.push_state(1_000, row(&[1.0]));
    buf.push_state(1_100, row(&[2.0]));
    let out = push_f(&mut buf, "cam1", 1_050);
    assert_eq!(out.observations.len(), 1);
    assert_eq!(out.observations[0].timestamp_us, 1_000);
    assert_eq!(buf.state_fill(), 1);
}

#[test]
fn reuse_emits_a_state_for_every_push() {
    let config = SyncConfig { reuse_stale_frames: true, ..narrow(500) };
    let mut buf = mk(&["cam1"], &["j1"], config);
    // Nothing to reuse yet.
    assert!(buf.push_state(1_000, row(&[1.0])).is_empty());
    let out = push_f(&mut buf, "cam1", 1_100);
    assert_eq!(out.events, vec![SyncEvent::Observed { worst_delta_us: 100, stale: false }]);
    let out = buf.push_state(9_000, row(&[2.0]));
    assert_eq!(out.observations.len(), 1);
    assert_eq!(frame_ts(&out.observations[0], "cam1"), 1_100);
    assert!(matches!(out.events[0], SyncEvent::Observed { stale: true, .. }));
    // After a clear there is again nothing to reuse.
    buf.clear();
    assert!(buf.push_state(9_500, row(&[3.0])).is_empty());
}

#[test]
fn unknown_tracks_are_ignored() {
    let mut buf = mk(&["cam1"], &["j1"], SyncConfig::default());
    assert!(push_f(&mut buf, "cam9", 1_000).is_empty());
    assert!(buf.video_buffer(0).is_empty());
    assert!(buf.track_index("cam9").is_none());

    let mut buf = mk_pull(&["cam1", "cam1"], &["j1"], SyncConfig::default());
    buf.push_frame("cam9", make_frame(1_000));
    assert!(buf.video_buffer(0).is_empty());
    // A name that is given twice is one track.
    buf.push_frame("cam1", make_frame(1_000));
    assert_eq!(buf.push_state(1_000, row(&[1.0])).observations.len(), 1);
}

#[test]
fn without_tracks_every_state_is_an_observation() {
    let mut buf = mk(&[], &["j1"], SyncConfig::default());
    let out = buf.push_state(7, row(&[4.0]));
    assert_eq!(out.observations.len(), 1);
    assert_eq!(out.observations[0].frames.len(), 0);
    assert_eq!(value(&out.observations[0].state, "j1"), 4.0);
}

#[test]
fn out_of_order_frames_are_found_by_a_full_look() {
    let mut buf = mk_pull(&["cam1"], &["j1"], narrow(500));
    for ts in [9_000u64, 1_000, 5_000] {
        buf.push_frame("cam1", make_frame(ts));
    }
    let out = buf.push_state(1_100, row(&[0.0]));
    assert_eq!(frame_ts(&out.observations[0], "cam1"), 1_000);
    // The frame in front of it left too.
    assert_eq!(buf.video_buffer(0).len(), 1);
    assert_eq!(buf.video_buffer(0)[0].timestamp_us, 5_000);
}

#[test]
fn of_two_equally_near_frames_the_first_is_taken() {
    let mut buf = mk_pull(&["cam1"], &["j1"], narrow(500));
    buf.push_frame("cam1", make_frame(1_000));
    buf.push_frame("cam1", make_frame(1_200));
    let out = buf.push_state(1_100, row(&[0.0]));
    assert_eq!(frame_ts(&out.observations[0], "cam1"), 1_000);
    assert_eq!(buf.video_buffer(0).len(), 1);
}

#[test]
fn a_full_look_drops_only_when_all_frames_are_later() {
    let mut buf = mk_pull(&["cam1"], &["j1"], narrow(500));
    buf.push_frame("cam1", make_frame(1_000));
    // One frame is older: the state waits.
    buf.push_state(3_000, row(&[1.0]));
    assert!(buf.push_frame("cam1", make_frame(5_000)).drops.is_empty());
    assert_eq!(buf.state_fill(), 1);
    // At the very edge a later frame does not end the wait either.
    let mut buf = mk_pull(&["cam1"], &["j1"], narrow(500));
    buf.push_state(1_000, row(&[1.0]));
    assert!(buf.push_frame("cam1", make_frame(1_500)).drops.is_empty());
}

#[test]
fn an_earlier_state_leaves_a_frame_to_the_nearer_later_one() {
    let mut buf = mk(&["cam1"], &["j1"], narrow(1_500));
    buf.push_state(1_000, row(&[1.0]));
    buf.push_state(2_000, row(&[2.0]));
    // The frame is in range of both states and nearer to the later one.
    assert!(push_f(&mut buf, "cam1", 2_005).is_empty());
    assert_eq!(buf.state_fill(), 2);
    // Past the window of the earlier state it is given up, and the later one gets its frame.
    let out = push_f(&mut buf, "cam1", 2_500);
    assert_eq!(out.drops.len(), 1);
    assert_eq!(value(&out.drops[0], "j1"), 1.0);
    assert_eq!(out.observations.len(), 1);
    assert_eq!(out.observations[0].timestamp_us, 2_000);
    assert_eq!(frame_ts(&out.observations[0], "cam1"), 2_005);
}

#[test]
fn an_earlier_state_falls_back_to_the_frame_nobody_claims() {
    let mut buf = mk(&["cam1", "cam2"], &["j1"], narrow(1_500));
    buf.push_state(1_000, row(&[1.0]));
    buf.push_state(1_800, row(&[2.0]));
    push_f(&mut buf, "cam1", 200);
    push_f(&mut buf, "cam1", 1_790);
    // The frame at 1_790 is the nearer one for both states.
    let out = push_f(&mut buf, "cam2", 1_000);
    assert_eq!(out.observations.len(), 1);
    assert_eq!(frame_ts(&out.observations[0], "cam1"), 200);
    let out = push_f(&mut buf, "cam2", 1_800);
    assert_eq!(frame_ts(&out.observations[0], "cam1"), 1_790);
}

#[test]
fn a_frame_equally_near_to_two_states_serves_the_earlier() {
    let mut buf = mk(&["cam1"], &["j1"], narrow(1_500));
    buf.push_state(1_000, row(&[1.0]));
    buf.push_state(2_000, row(&[2.0]));
    let out = push_f(&mut buf, "cam1", 1_500);
    assert_eq!(out.observations.len(), 1);
    assert_eq!(out.observations[0].timestamp_us, 1_000);
}

#[test]
fn a_second_look_finds_nothing() {
    let mut buf = mk(&["cam1"], &["j1"], narrow(500));
    buf.push_state(1_000, row(&[1.0]));
    push_f(&mut buf, "cam1", 1_100);
    buf.push_state(5_000, row(&[2.0]));
    let out = buf.try_sync();
    assert!(out.is_empty());
    assert!(out.evicted.is_empty());
    assert_eq!(buf.state_fill(), 1);
}

#[test]
fn states_that_give_way_are_told_before_the_others() {
    let config = SyncConfig { state_buffer_size: 1, ..narrow(500) };
    let mut buf = mk_pull(&["cam1"], &["j1"], config);
    buf.push_frame("cam1", make_frame(100));
    assert!(buf.push_state(1_000, row(&[1.0])).drops.is_empty());
    let out = buf.push_state(2_000, row(&[2.0]));
    assert_eq!(out.drops.len(), 1);
    assert_eq!(value(&out.drops[0], "j1"), 1.0);
}
