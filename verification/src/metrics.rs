//! What a portal counts.

use vstd::prelude::*;

use crate::field_map::FieldMap;
use crate::samples::{is_percentile, recorded, total, SampleWindow};
use crate::sync_model::SyncEvent;

verus! {

/// How putting observations together went.
pub struct SyncMetrics {
    pub observations_emitted: u64,
    /// Those of the emitted observations in which some track reused its last frame.
    pub stale_observations_emitted: u64,
    pub states_dropped: u64,
    pub match_delta_us_p50: Option<u64>,
    pub match_delta_us_p95: Option<u64>,
    pub last_blocker_track: Option<String>,
}

/// What went out and what came in.
pub struct TransportMetrics {
    pub frames_sent: FieldMap<u64>,
    pub frames_received: FieldMap<u64>,
    pub states_sent: u64,
    pub states_received: u64,
    pub actions_sent: u64,
    pub actions_received: u64,
    pub action_chunks_sent: u64,
    pub action_chunks_received: u64,
    pub frame_jitter_us: FieldMap<u64>,
    pub state_jitter_us: u64,
    pub action_jitter_us: u64,
    pub action_chunk_jitter_us: u64,
}

/// How full the buffers are.
pub struct BufferMetrics {
    pub video_fill: FieldMap<usize>,
    pub state_fill: usize,
    pub evictions: FieldMap<u64>,
}

/// How long the round trip takes.
pub struct RttMetrics {
    pub rtt_us_last: Option<u64>,
    pub rtt_us_mean: Option<u64>,
    pub rtt_us_p95: Option<u64>,
    pub pings_sent: u64,
    pub pongs_received: u64,
}

pub struct PortalMetrics {
    pub sync: SyncMetrics,
    pub transport: TransportMetrics,
    pub buffers: BufferMetrics,
    pub rtt: RttMetrics,
    pub policy: PolicyMetrics,
}

/// How long it takes from an observation to the action that answers it.
pub struct PolicyMetrics {
    pub e2e_us_p50: Option<u64>,
    pub e2e_us_p95: Option<u64>,
    /// How many actions and chunks named the observation they answer.
    pub correlated_received: u64,
}

/// `value` is the percentile of the samples, if there are any.
pub open spec fn percentile_of(samples: Seq<u64>, percent: u64, value: Option<u64>) -> bool {
    match value {
        Some(v) => is_percentile(samples, percent, v),
        None => samples.len() == 0,
    }
}

/// What lies between two times; nothing where the later one comes first.
pub open spec fn elapsed(from_us: u64, to_us: u64) -> u64 {
    if to_us >= from_us {
        (to_us - from_us) as u64
    } else {
        0
    }
}

/// The next count, which starts over when it runs out.
pub open spec fn counted(count: u64, more: u64) -> u64 {
    if count + more > u64::MAX {
        (count + more - u64::MAX - 1) as u64
    } else {
        (count + more) as u64
    }
}

impl SyncMetrics {
    /// Counts what a synchronisation buffer reported. `deltas` holds the worst distances of
    /// recent observations. Pushed-out frames are counted with the buffers.
    pub fn count(
        &mut self,
        event: SyncEvent,
        track_names: &[String],
        deltas: &mut SampleWindow,
    )
        requires
            event matches SyncEvent::Blocked { track } ==> track < track_names@.len(),
        ensures
            !(event is Observed) ==> {
                &&& final(self).match_delta_us_p50 == old(self).match_delta_us_p50
                &&& final(self).match_delta_us_p95 == old(self).match_delta_us_p95
                &&& final(deltas)@ == old(deltas)@
            },
            match event {
                SyncEvent::Observed { worst_delta_us, stale } => {
                    &&& final(deltas)@ == recorded(old(deltas)@, worst_delta_us)
                    &&& percentile_of(final(deltas)@, 50, final(self).match_delta_us_p50)
                    &&& percentile_of(final(deltas)@, 95, final(self).match_delta_us_p95)
                    &&& final(self).observations_emitted == counted(
                        old(self).observations_emitted,
                        1,
                    )
                    &&& final(self).stale_observations_emitted == if stale {
                        counted(old(self).stale_observations_emitted, 1)
                    } else {
                        old(self).stale_observations_emitted
                    }
                    &&& final(self).states_dropped == old(self).states_dropped
                    &&& final(self).last_blocker_track == old(self).last_blocker_track
                },
                SyncEvent::StatesDropped { count } => {
                    &&& final(self).states_dropped == counted(old(self).states_dropped, count)
                    &&& final(self).observations_emitted == old(self).observations_emitted
                    &&& final(self).stale_observations_emitted
                        == old(self).stale_observations_emitted
                    &&& final(self).last_blocker_track == old(self).last_blocker_track
                },
                SyncEvent::Blocked { track } => {
                    &&& final(self).last_blocker_track matches Some(name)
                    &&& name@ == track_names@[track as int]@
                    &&& final(self).observations_emitted == old(self).observations_emitted
                    &&& final(self).stale_observations_emitted
                        == old(self).stale_observations_emitted
                    &&& final(self).states_dropped == old(self).states_dropped
                },
                SyncEvent::FramesEvicted { track, count } => *final(self) == *old(self),
            },
    {
        match event {
            SyncEvent::Observed { worst_delta_us, stale } => {
                deltas.record(worst_delta_us);
                self.match_delta_us_p50 = deltas.percentile(50);
                self.match_delta_us_p95 = deltas.percentile(95);
                self.observations_emitted = self.observations_emitted.wrapping_add(1);
                if stale {
                    self.stale_observations_emitted = self.stale_observations_emitted.wrapping_add(
                        1,
                    );
                }
            },
            SyncEvent::StatesDropped { count } => {
                self.states_dropped = self.states_dropped.wrapping_add(count);
            },
            SyncEvent::Blocked { track } => {
                self.last_blocker_track = Some(track_names[track].clone());
            },
            SyncEvent::FramesEvicted { track: _, count: _ } => {},
        }
    }
}

impl RttMetrics {
    /// Takes note of an answered ping. `trips` holds the round trips of recent ones.
    pub fn record_trip(&mut self, trip: u64, trips: &mut SampleWindow)
        ensures
            final(trips)@ == recorded(old(trips)@, trip),
            final(self).rtt_us_last == Some(trip),
            final(self).rtt_us_mean == Some(
                (total(final(trips)@) / final(trips)@.len()) as u64,
            ),
            percentile_of(final(trips)@, 95, final(self).rtt_us_p95),
            final(self).pings_sent == old(self).pings_sent,
            final(self).pongs_received == counted(old(self).pongs_received, 1),
    {
        trips.record(trip);
        self.rtt_us_last = Some(trip);
        self.rtt_us_mean = trips.mean();
        self.rtt_us_p95 = trips.percentile(95);
        self.pongs_received = self.pongs_received.wrapping_add(1);
    }
}

impl PolicyMetrics {
    /// Takes note of an action or a chunk that names the observation it answers. One that names
    /// none changes nothing. `trips` holds the times of recent ones.
    pub fn record(
        &mut self,
        in_reply_to_ts_us: Option<u64>,
        now_us: u64,
        trips: &mut SampleWindow,
    )
        ensures
            match in_reply_to_ts_us {
                Some(ts) => {
                    &&& final(trips)@ == recorded(old(trips)@, elapsed(ts, now_us))
                    &&& percentile_of(final(trips)@, 50, final(self).e2e_us_p50)
                    &&& percentile_of(final(trips)@, 95, final(self).e2e_us_p95)
                    &&& final(self).correlated_received == counted(
                        old(self).correlated_received,
                        1,
                    )
                },
                None => *final(self) == *old(self) && final(trips)@ == old(trips)@,
            },
    {
        if let Some(ts) = in_reply_to_ts_us {
            let trip: u64 = if now_us >= ts {
                now_us - ts
            } else {
                0
            };
            trips.record(trip);
            self.e2e_us_p50 = trips.percentile(50);
            self.e2e_us_p95 = trips.percentile(95);
            self.correlated_received = self.correlated_received.wrapping_add(1);
        }
    }
}

impl BufferMetrics {
    /// Counts frames of a track that were pushed out.
    pub fn record_evictions(&mut self, track_name: &str, count: u64)
        ensures
            final(self).video_fill == old(self).video_fill,
            final(self).state_fill == old(self).state_fill,
            final(self).evictions@ == old(self).evictions@.insert(
                track_name@,
                counted(
                    if old(self).evictions@.contains_key(track_name@) {
                        old(self).evictions@[track_name@]
                    } else {
                        0
                    },
                    count,
                ),
            ),
    {
        let before: u64 = match self.evictions.get(track_name) {
            Some(n) => *n,
            None => 0,
        };
        self.evictions.insert(track_name.to_owned(), before.wrapping_add(count));
    }
}

/// A count goes on by what was counted, modulo what it can hold.
pub proof fn law_counts_go_on(count: u64, more: u64)
    ensures
        count + more <= u64::MAX ==> counted(count, more) == count + more,
        counted(count, more) as int == (count + more) % 0x1_0000_0000_0000_0000,
        counted(count, 0) == count,
{
}

/// Time that went by is the difference of the two times, and never less than nothing.
pub proof fn law_time_goes_by(from_us: u64, to_us: u64)
    ensures
        from_us <= to_us ==> from_us + elapsed(from_us, to_us) == to_us,
        to_us <= from_us ==> elapsed(from_us, to_us) == 0,
{
}

/// Where there are samples there is a percentile, one of them; where there are none there is none.
pub proof fn law_percentile_is_a_sample(samples: Seq<u64>, percent: u64, value: Option<u64>)
    requires
        percentile_of(samples, percent, value),
    ensures
        value is None ==> samples.len() == 0,
        value matches Some(v) ==> exists|i: int| 0 <= i < samples.len() && #[trigger] samples[i]
            == v,
{
}

} // verus!
