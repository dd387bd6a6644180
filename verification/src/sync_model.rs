//! What a synchronisation buffer holds and what it makes of it.
//!
//! Each video track keeps its frames in arrival order with a cursor that follows the states.
//! The oldest state is looked at first: it is emitted once every track has a frame for it,
//! dropped once some track can no longer get one, and waits otherwise. A frame that lies nearer
//! to a later waiting state is left to that state.

use std::sync::Arc;

use vstd::prelude::*;

use crate::double::Double;
use crate::field_map::collect;
use crate::types::{paired, ObservationView, SyncConfig, VideoFrameData};

verus! {

/// Something a synchronisation buffer did that its metrics count.
#[derive(Debug, Clone, Copy, PartialEq, Eq, Structural)]
pub enum SyncEvent {
    /// Frames of a track were pushed out by newer ones.
    FramesEvicted { track: usize, count: u64 },
    /// States were given up.
    StatesDropped { count: u64 },
    /// The oldest state waits for a frame of this track.
    Blocked { track: usize },
    /// A state was emitted. `worst_delta_us` is the largest distance between the state and one
    /// of its frames; `stale` tells that some track reused its last emitted frame.
    Observed { worst_delta_us: u64, stale: bool },
}

/// One video track.
#[verifier::ext_equal]
pub struct TrackView {
    pub frames: Seq<Arc<VideoFrameData>>,
    pub cursor: int,
    pub last_emitted: Option<Arc<VideoFrameData>>,
}

/// One state sample.
#[verifier::ext_equal]
pub struct StateView {
    pub timestamp_us: u64,
    pub values: Seq<Double>,
}

/// A synchronisation buffer.
#[verifier::ext_equal]
pub struct SyncView {
    pub names: Seq<Seq<char>>,
    pub fields: Seq<Seq<char>>,
    pub config: SyncConfig,
    pub tracks: Seq<TrackView>,
    pub states: Seq<StateView>,
    pub blocker: Option<int>,
}

/// What a push brought about.
#[verifier::ext_equal]
pub struct OutputView {
    pub observations: Seq<ObservationView>,
    pub drops: Seq<Map<Seq<char>, Double>>,
    /// States that newer ones pushed out of the buffer.
    pub evicted: Seq<Map<Seq<char>, Double>>,
    pub events: Seq<SyncEvent>,
}

impl OutputView {
    pub open spec fn empty() -> OutputView {
        OutputView {
            observations: Seq::empty(),
            drops: Seq::empty(),
            evicted: Seq::empty(),
            events: Seq::empty(),
        }
    }

    /// What the drop callback is told: the pushed-out states, then the ones given up.
    pub open spec fn told(self) -> Seq<Map<Seq<char>, Double>> {
        self.evicted + self.drops
    }

    /// This output with `later` behind it.
    pub open spec fn then_output(self, later: OutputView) -> OutputView {
        OutputView {
            observations: self.observations + later.observations,
            drops: self.drops + later.drops,
            evicted: self.evicted + later.evicted,
            events: self.events + later.events,
        }
    }
}

/// Distance between two timestamps.
pub open spec fn delta(a: u64, b: u64) -> int {
    if a <= b {
        b - a
    } else {
        a - b
    }
}

/// A frame at `frame_ts` may stand for a state at `ts`.
pub open spec fn in_range(frame_ts: u64, ts: u64, range: u64) -> bool {
    delta(ts, frame_ts) < range
}

/// A frame at `frame_ts` lies at or beyond the end of the window of a state at `ts`. The end
/// of the window never lies past the largest timestamp.
pub open spec fn past_horizon(frame_ts: u64, ts: u64, range: u64) -> bool {
    frame_ts >= ts + range || frame_ts == u64::MAX && ts + range > u64::MAX
}

/// One of the `later` states is nearer to a frame at `frame_ts` than a state at `ts`.
pub open spec fn claimed(frame_ts: u64, ts: u64, later: Seq<StateView>) -> bool {
    exists|m: int|
        0 <= m < later.len() && delta((#[trigger] later[m]).timestamp_us, frame_ts) < delta(
            ts,
            frame_ts,
        )
}

/// A state at `ts` may have a frame at `frame_ts`: it is in range, and none of the `later`
/// states is nearer to it.
pub open spec fn free(frame_ts: u64, ts: u64, later: Seq<StateView>, range: u64) -> bool {
    in_range(frame_ts, ts, range) && !claimed(frame_ts, ts, later)
}

/// Where a cursor comes to rest that steps back while it is on a frame later than `ts`.
pub open spec fn rewound(frames: Seq<Arc<VideoFrameData>>, cursor: int, ts: u64) -> int
    decreases cursor,
{
    if cursor > 0 && frames[cursor].timestamp_us > ts {
        rewound(frames, cursor - 1, ts)
    } else {
        cursor
    }
}

/// Where a cursor comes to rest that steps forward while the next frame is not later than
/// `ts`.
pub open spec fn advanced(frames: Seq<Arc<VideoFrameData>>, cursor: int, ts: u64) -> int
    decreases frames.len() - cursor,
{
    if cursor + 1 < frames.len() && frames[cursor + 1].timestamp_us <= ts {
        advanced(frames, cursor + 1, ts)
    } else {
        cursor
    }
}

/// Where the cursor of a track with frames goes for a state at `ts`.
pub open spec fn settled(frames: Seq<Arc<VideoFrameData>>, cursor: int, ts: u64) -> int {
    let start = if cursor >= frames.len() {
        frames.len() - 1
    } else {
        cursor
    };
    advanced(frames, rewound(frames, start, ts), ts)
}

/// The nearer of the frames at `at` and behind it, of those the state may have; the one at `at`
/// where both are equally near.
pub open spec fn pick(
    frames: Seq<Arc<VideoFrameData>>,
    at: int,
    ts: u64,
    later: Seq<StateView>,
    range: u64,
) -> Option<int> {
    let here = free(frames[at].timestamp_us, ts, later, range);
    let next = at + 1 < frames.len() && free(frames[at + 1].timestamp_us, ts, later, range);
    if next && (!here || delta(ts, frames[at + 1].timestamp_us) < delta(
        ts,
        frames[at].timestamp_us,
    )) {
        Some(at + 1)
    } else if here {
        Some(at)
    } else {
        None
    }
}

impl TrackView {
    /// The track with its cursor moved for a state at `ts`.
    pub open spec fn settle(self, ts: u64) -> TrackView {
        if self.frames.len() == 0 {
            self
        } else {
            TrackView { cursor: settled(self.frames, self.cursor, ts), ..self }
        }
    }

    /// The frame that a state at `ts` takes from the buffer while the `later` ones wait behind
    /// it.
    pub open spec fn found(self, ts: u64, later: Seq<StateView>, range: u64) -> Option<int> {
        if self.frames.len() == 0 {
            None
        } else {
            pick(self.frames, settled(self.frames, self.cursor, ts), ts, later, range)
        }
    }

    /// The track has a buffered frame for the state.
    pub open spec fn fresh(self, ts: u64, later: Seq<StateView>, config: SyncConfig) -> bool {
        self.found(ts, later, config.search_range_us) is Some
    }

    /// The track falls back to its last emitted frame.
    pub open spec fn stale(self, ts: u64, later: Seq<StateView>, config: SyncConfig) -> bool {
        &&& !self.fresh(ts, later, config)
        &&& config.reuse_stale_frames
        &&& self.last_emitted is Some
    }

    /// The newest frame of the track is past the window of the state.
    pub open spec fn hopeless(self, ts: u64, later: Seq<StateView>, config: SyncConfig) -> bool {
        &&& !self.fresh(ts, later, config)
        &&& !self.stale(ts, later, config)
        &&& self.frames.len() > 0
        &&& past_horizon(self.frames.last().timestamp_us, ts, config.search_range_us)
    }

    /// The track may still get a frame for the state.
    pub open spec fn blocked(self, ts: u64, later: Seq<StateView>, config: SyncConfig) -> bool {
        &&& !self.fresh(ts, later, config)
        &&& !self.stale(ts, later, config)
        &&& !self.hopeless(ts, later, config)
    }

    /// The frame that the state is emitted with.
    pub open spec fn frame_for(self, ts: u64, later: Seq<StateView>, config: SyncConfig) -> Arc<
        VideoFrameData,
    > {
        match self.found(ts, later, config.search_range_us) {
            Some(i) => self.frames[i],
            None => self.last_emitted->0,
        }
    }

    /// The track once the state was emitted: the matched frame and all before it are gone.
    pub open spec fn consumed(
        self,
        ts: u64,
        later: Seq<StateView>,
        config: SyncConfig,
    ) -> TrackView {
        match self.found(ts, later, config.search_range_us) {
            Some(i) => TrackView {
                frames: self.frames.skip(i + 1),
                cursor: if self.settle(ts).cursor >= i + 1 {
                    self.settle(ts).cursor - (i + 1)
                } else {
                    0
                },
                last_emitted: Some(self.frames[i]),
            },
            None => self.settle(ts),
        }
    }

    /// The track with one more frame, cut down to `cap` frames.
    pub open spec fn pushed(self, frame: Arc<VideoFrameData>, cap: int) -> TrackView {
        let evicted = overflow(self.frames.len() as int + 1, cap);
        TrackView {
            frames: self.frames.push(frame).skip(evicted),
            cursor: if self.cursor >= evicted {
                self.cursor - evicted
            } else {
                0
            },
            last_emitted: self.last_emitted,
        }
    }
}

/// How many of `len` items do not fit into `cap` places.
pub open spec fn overflow(len: int, cap: int) -> int {
    if len > cap {
        len - cap
    } else {
        0
    }
}

/// The first position at which `holds` is true.
pub open spec fn is_first(holds: Seq<bool>, i: int) -> bool {
    &&& 0 <= i < holds.len()
    &&& holds[i]
    &&& forall|j: int| 0 <= j < i ==> !#[trigger] holds[j]
}

/// The first position at which `holds` is true, if there is one.
pub open spec fn first_true(holds: Seq<bool>) -> Option<int> {
    if exists|i: int| is_first(holds, i) {
        Some(choose|i: int| is_first(holds, i))
    } else {
        None
    }
}

/// There is at most one first position.
pub proof fn lemma_first_true_is(holds: Seq<bool>, i: int)
    requires
        is_first(holds, i),
    ensures
        first_true(holds) == Some(i),
{
    let k = choose|k: int| is_first(holds, k);
    assert(is_first(holds, k));
    if k < i {
        assert(!holds[k]);
    } else if i < k {
        assert(!holds[i]);
    }
}

/// There is a first position exactly where some position holds.
pub proof fn lemma_first_true_none(holds: Seq<bool>)
    ensures
        first_true(holds) is None <==> forall|i: int| 0 <= i < holds.len() ==> !#[trigger] holds[i],
{
    if first_true(holds) is None {
        assert forall|i: int| 0 <= i < holds.len() implies !#[trigger] holds[i] by {
            lemma_no_first(holds, i);
        }
    }
}

proof fn lemma_no_first(holds: Seq<bool>, i: int)
    requires
        first_true(holds) is None,
        0 <= i < holds.len(),
    ensures
        !holds[i],
    decreases i,
{
    assert forall|j: int| 0 <= j < i implies !#[trigger] holds[j] by {
        lemma_no_first(holds, j);
    }
    if holds[i] {
        assert(is_first(holds, i));
    }
}

/// Largest distance between a state at `ts` and the first `n` of `frames`.
pub open spec fn worst_delta(frames: Seq<Arc<VideoFrameData>>, ts: u64, n: int) -> int
    decreases n,
{
    if n <= 0 {
        0
    } else {
        let before = worst_delta(frames, ts, n - 1);
        let here = delta(ts, frames[n - 1].timestamp_us);
        if here > before {
            here
        } else {
            before
        }
    }
}

/// The last position of `name` among `names`.
pub open spec fn is_last_named(names: Seq<Seq<char>>, name: Seq<char>, i: int) -> bool {
    &&& 0 <= i < names.len()
    &&& names[i] == name
    &&& forall|j: int| i < j < names.len() ==> #[trigger] names[j] != name
}

impl SyncView {
    /// Timestamp of the oldest state.
    pub open spec fn head_ts(self) -> u64 {
        self.states[0].timestamp_us
    }

    /// The states behind the oldest one.
    pub open spec fn later(self) -> Seq<StateView> {
        self.states.skip(1)
    }

    /// Which tracks can no longer get a frame for the oldest state.
    pub open spec fn hopeless_tracks(self) -> Seq<bool> {
        self.tracks.map_values(
            |t: TrackView| t.hopeless(self.head_ts(), self.later(), self.config),
        )
    }

    /// Which tracks the oldest state waits for.
    pub open spec fn blocked_tracks(self) -> Seq<bool> {
        self.tracks.map_values(
            |t: TrackView| t.blocked(self.head_ts(), self.later(), self.config),
        )
    }

    /// The frames the oldest state is emitted with, by track.
    pub open spec fn head_frames(self) -> Seq<Arc<VideoFrameData>> {
        self.tracks.map_values(
            |t: TrackView| t.frame_for(self.head_ts(), self.later(), self.config),
        )
    }

    /// Some track reuses its last emitted frame for the oldest state.
    pub open spec fn head_is_stale(self) -> bool {
        exists|i: int|
            0 <= i < self.tracks.len() && (#[trigger] self.tracks[i]).stale(
                self.head_ts(),
                self.later(),
                self.config,
            )
    }

    /// The values of the oldest state by field.
    pub open spec fn head_fields(self) -> Map<Seq<char>, Double> {
        collect(paired(self.fields, self.states[0].values))
    }

    /// The observation that the oldest state makes.
    pub open spec fn head_observation(self) -> ObservationView {
        ObservationView {
            state: self.head_fields(),
            frames: collect(paired(self.names, self.head_frames())),
            timestamp_us: self.head_ts(),
        }
    }

    /// The buffer with the cursors of its first `n` tracks moved for the oldest state.
    pub open spec fn scanned(self, n: int) -> SyncView {
        SyncView {
            tracks: Seq::new(
                self.tracks.len(),
                |i: int|
                    if i < n {
                        self.tracks[i].settle(self.head_ts())
                    } else {
                        self.tracks[i]
                    },
            ),
            ..self
        }
    }

    /// The buffer once the oldest state was dropped on account of track `i`.
    pub open spec fn after_drop(self, i: int) -> SyncView {
        SyncView { states: self.states.skip(1), ..self.scanned(i + 1) }
    }

    /// The buffer while the oldest state waits for track `i`.
    pub open spec fn after_wait(self, i: int) -> SyncView {
        SyncView { blocker: Some(i), ..self.scanned(self.tracks.len() as int) }
    }

    /// The buffer once the oldest state was emitted.
    pub open spec fn after_emit(self) -> SyncView {
        SyncView {
            tracks: self.tracks.map_values(
                |t: TrackView| t.consumed(self.head_ts(), self.later(), self.config),
            ),
            states: self.states.skip(1),
            ..self
        }
    }

    /// Dropping the oldest state, as output.
    pub open spec fn drop_output(self) -> OutputView {
        OutputView {
            observations: Seq::empty(),
            drops: seq![self.head_fields()],
            evicted: Seq::empty(),
            events: seq![SyncEvent::StatesDropped { count: 1 }],
        }
    }

    /// Waiting for track `i`, as output.
    pub open spec fn wait_output(self, i: int) -> OutputView {
        OutputView {
            observations: Seq::empty(),
            drops: Seq::empty(),
            evicted: Seq::empty(),
            events: seq![SyncEvent::Blocked { track: i as usize }],
        }
    }

    /// Emitting the oldest state, as output.
    pub open spec fn emit_output(self) -> OutputView {
        OutputView {
            observations: seq![self.head_observation()],
            drops: Seq::empty(),
            evicted: Seq::empty(),
            events: seq![
                SyncEvent::Observed {
                    worst_delta_us: worst_delta(
                        self.head_frames(),
                        self.head_ts(),
                        self.tracks.len() as int,
                    ) as u64,
                    stale: self.head_is_stale(),
                },
            ],
        }
    }

    /// Emits and drops states, oldest first, until one has to wait or none is left. A track
    /// that can no longer get a frame weighs more than one that still may.
    pub open spec fn run(self) -> (SyncView, OutputView)
        decreases self.states.len(),
    {
        if self.states.len() == 0 {
            (SyncView { blocker: None, ..self }, OutputView::empty())
        } else {
            match (first_true(self.hopeless_tracks()), first_true(self.blocked_tracks())) {
                (Some(i), _) => {
                    let rest = self.after_drop(i).run();
                    (rest.0, self.drop_output().then_output(rest.1))
                },
                (None, Some(i)) => (self.after_wait(i), self.wait_output(i)),
                (None, None) => {
                    let rest = self.after_emit().run();
                    (rest.0, self.emit_output().then_output(rest.1))
                },
            }
        }
    }

    /// A frame arrives on track `i`. The states are looked at again unless the oldest one
    /// waits for another track and no frame of this one was pushed out.
    pub open spec fn frame_pushed(self, i: int, frame: Arc<VideoFrameData>) -> (
        SyncView,
        OutputView,
    ) {
        let cap = self.config.video_buffer_size as int;
        let evicted = overflow(self.tracks[i].frames.len() as int + 1, cap);
        let held = SyncView {
            tracks: self.tracks.update(i, self.tracks[i].pushed(frame, cap)),
            ..self
        };
        let noted = if evicted > 0 {
            OutputView {
                events: seq![
                    SyncEvent::FramesEvicted { track: i as usize, count: evicted as u64 },
                ],
                ..OutputView::empty()
            }
        } else {
            OutputView::empty()
        };
        if self.blocker is None || self.blocker == Some(i) || evicted > 0 {
            let rest = held.run();
            (rest.0, noted.then_output(rest.1))
        } else {
            (held, noted)
        }
    }

    /// The values of the state at `i` by field.
    pub open spec fn fields_of(self, i: int) -> Map<Seq<char>, Double> {
        collect(paired(self.fields, self.states[i].values))
    }

    /// A state arrives; the oldest ones give way where there are too many.
    pub open spec fn state_pushed(self, state: StateView) -> (SyncView, OutputView) {
        let cap = self.config.state_buffer_size as int;
        let dropped = overflow(self.states.len() as int + 1, cap);
        let all = SyncView { states: self.states.push(state), ..self };
        let held = SyncView { states: all.states.skip(dropped), ..self };
        let noted = if dropped > 0 {
            OutputView {
                evicted: Seq::new(dropped as nat, |i: int| all.fields_of(i)),
                events: seq![SyncEvent::StatesDropped { count: dropped as u64 }],
                ..OutputView::empty()
            }
        } else {
            OutputView::empty()
        };
        let rest = held.run();
        (rest.0, noted.then_output(rest.1))
    }

    /// Nothing is held: no frame, no state, no emitted frame to fall back to.
    pub open spec fn cleared(self) -> SyncView {
        SyncView {
            tracks: self.tracks.map_values(
                |t: TrackView|
                    TrackView { frames: Seq::empty(), cursor: 0, last_emitted: None },
            ),
            states: Seq::empty(),
            blocker: None,
            ..self
        }
    }
}

} // verus!
