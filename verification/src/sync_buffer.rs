//! Matches states with video frames.

use std::collections::VecDeque;
use std::sync::Arc;

use vstd::prelude::*;

use crate::double::Double;
use crate::field_map::{collect, FieldMap};
use crate::sync_laws::{
    cursors_valid, law_limits_are_kept, law_run_is_stable, law_run_shrinks, lemma_limits_shrink,
    within_limits,
};
use crate::sync_model::{
    advanced, claimed, delta, first_true, is_first, is_last_named, pick, rewound, settled,
    worst_delta, OutputView, StateView, SyncEvent, SyncView, TrackView,
};
use crate::text::same_text;
use crate::types::{paired, texts, to_field_map, Observation, SyncConfig, VideoFrameData};

verus! {

/// Result of pushing a frame or a state. It is handed back rather than delivered, so that a
/// slow consumer cannot hold up the buffer.
pub struct SyncOutput {
    pub observations: Vec<Observation>,
    /// States that were given up, by field.
    pub drops: Vec<FieldMap<Double>>,
    /// States that newer ones pushed out of the buffer, by field.
    pub evicted: Vec<FieldMap<Double>>,
    /// What the metrics have to count, in order.
    pub events: Vec<SyncEvent>,
}

impl View for SyncOutput {
    type V = OutputView;

    open spec fn view(&self) -> OutputView {
        OutputView {
            observations: self.observations@.map_values(|o: Observation| o@),
            drops: self.drops@.map_values(|d: FieldMap<Double>| d@),
            evicted: self.evicted@.map_values(|d: FieldMap<Double>| d@),
            events: self.events@,
        }
    }
}

impl SyncOutput {
    pub fn empty() -> (out: SyncOutput)
        ensures
            out@ == OutputView::empty(),
    {
        SyncOutput {
            observations: Vec::new(),
            drops: Vec::new(),
            evicted: Vec::new(),
            events: Vec::new(),
        }
    }

    /// No state was settled, neither as an observation nor as a drop. Pushed-out states and
    /// events may be there all the same.
    pub fn is_empty(&self) -> (empty: bool)
        ensures
            empty == (self@.observations.len() == 0 && self@.drops.len() == 0),
    {
        self.observations.len() == 0 && self.drops.len() == 0
    }

    fn push_drop(&mut self, fields: FieldMap<Double>)
        ensures
            final(self)@ == (OutputView { drops: old(self)@.drops.push(fields@), ..old(self)@ }),
    {
        self.drops.push(fields);
        assert(self@.drops =~= old(self)@.drops.push(fields@));
    }

    fn push_evicted(&mut self, fields: FieldMap<Double>)
        ensures
            final(self)@ == (OutputView {
                evicted: old(self)@.evicted.push(fields@),
                ..old(self)@
            }),
    {
        self.evicted.push(fields);
        assert(self@.evicted =~= old(self)@.evicted.push(fields@));
    }

    fn push_observation(&mut self, observation: Observation)
        ensures
            final(self)@ == (OutputView {
                observations: old(self)@.observations.push(observation@),
                ..old(self)@
            }),
    {
        self.observations.push(observation);
        assert(self@.observations =~= old(self)@.observations.push(observation@));
    }

    fn append(&mut self, later: &mut SyncOutput)
        ensures
            final(self)@ == old(self)@.then_output(old(later)@),
    {
        self.observations.append(&mut later.observations);
        self.drops.append(&mut later.drops);
        self.evicted.append(&mut later.evicted);
        self.events.append(&mut later.events);
        assert(self@ =~= old(self)@.then_output(old(later)@));
    }

    fn push_event(&mut self, event: SyncEvent)
        ensures
            final(self)@ == (OutputView { events: old(self)@.events.push(event), ..old(self)@ }),
    {
        self.events.push(event);
    }
}

proof fn lemma_output_assoc(a: OutputView, b: OutputView, c: OutputView)
    ensures
        a.then_output(b).then_output(c) == a.then_output(b.then_output(c)),
{
    assert(a.then_output(b).then_output(c) =~= a.then_output(b.then_output(c)));
}

/// The states of a buffer.
pub open spec fn states_of(states: Seq<(u64, Vec<Double>)>) -> Seq<StateView> {
    states.map_values(
        |s: (u64, Vec<Double>)| StateView { timestamp_us: s.0, values: s.1@ },
    )
}

/// Holds states and frames until they can be put together.
pub struct SyncBuffer {
    track_names: Vec<String>,
    video_buffers: Vec<VecDeque<Arc<VideoFrameData>>>,
    state_buffer: VecDeque<(u64, Vec<Double>)>,
    state_fields: Vec<String>,
    config: SyncConfig,
    cursors: Vec<usize>,
    blocker: Option<usize>,
    last_emitted: Vec<Option<Arc<VideoFrameData>>>,
}

/// What a look at all tracks decided about the oldest state.
enum Scan {
    /// This track can no longer get a frame.
    Drop(usize),
    /// This track still may.
    Wait(usize),
    /// Every track has one: at this position of its buffer, or its last emitted one.
    Emit(Vec<Option<usize>>),
}

impl View for SyncBuffer {
    type V = SyncView;

    closed spec fn view(&self) -> SyncView {
        SyncView {
            names: texts(self.track_names@),
            fields: texts(self.state_fields@),
            config: self.config,
            tracks: Seq::new(self.track_names@.len(), |i: int| self.track(i)),
            states: states_of(self.state_buffer@),
            blocker: match self.blocker {
                Some(i) => Some(i as int),
                None => None,
            },
        }
    }
}

/// Distance between two timestamps.
fn abs_diff(a: u64, b: u64) -> (d: u64)
    ensures
        d == delta(a, b),
{
    if a <= b {
        b - a
    } else {
        a - b
    }
}

/// Takes the first `n` items away.
pub fn drop_front<T>(items: &mut VecDeque<T>, n: usize)
    requires
        n <= old(items)@.len(),
    ensures
        final(items)@ == old(items)@.skip(n as int),
{
    let mut i: usize = 0;
    assert(items@ =~= old(items)@.skip(0));
    while i < n
        invariant
            i <= n <= old(items)@.len(),
            items@ == old(items)@.skip(i as int),
        decreases n - i,
    {
        let _ = items.pop_front();
        i += 1;
        assert(items@ =~= old(items)@.skip(i as int));
    }
}

/// Moves a cursor for a state at `ts`.
fn settle_cursor(frames: &VecDeque<Arc<VideoFrameData>>, from: usize, ts: u64) -> (cursor: usize)
    requires
        frames@.len() > 0,
    ensures
        cursor < frames@.len(),
        cursor == settled(frames@, from as int, ts),
{
    let mut cursor: usize = if from >= frames.len() {
        frames.len() - 1
    } else {
        from
    };
    let ghost start = cursor as int;
    while cursor > 0 && frames[cursor].timestamp_us > ts
        invariant
            cursor < frames@.len(),
            rewound(frames@, start, ts) == rewound(frames@, cursor as int, ts),
        decreases cursor,
    {
        cursor -= 1;
    }
    let ghost back = cursor as int;
    while cursor + 1 < frames.len() && frames[cursor + 1].timestamp_us <= ts
        invariant
            cursor < frames@.len(),
            frames@.len() <= usize::MAX,
            advanced(frames@, back, ts) == advanced(frames@, cursor as int, ts),
        decreases frames@.len() - cursor,
    {
        cursor += 1;
    }
    cursor
}

/// Whether one of the states behind the oldest is nearer to a frame than a state at `ts`.
fn is_claimed(states: &VecDeque<(u64, Vec<Double>)>, frame_ts: u64, ts: u64) -> (taken: bool)
    requires
        states@.len() > 0,
    ensures
        taken == claimed(frame_ts, ts, states_of(states@).skip(1)),
{
    let own: u64 = abs_diff(ts, frame_ts);
    let ghost later = states_of(states@).skip(1);
    let mut i: usize = 1;
    while i < states.len()
        invariant
            1 <= i <= states@.len(),
            later == states_of(states@).skip(1),
            own == delta(ts, frame_ts),
            forall|m: int|
                0 <= m < i - 1 ==> delta((#[trigger] later[m]).timestamp_us, frame_ts) >= own,
        decreases states@.len() - i,
    {
        assert(later[i - 1].timestamp_us == states@[i as int].0);
        if abs_diff(states[i].0, frame_ts) < own {
            return true;
        }
        i += 1;
    }
    false
}

/// The nearer of two neighbouring frames, of those that the oldest state, at `ts`, may have.
fn pick_frame(
    frames: &VecDeque<Arc<VideoFrameData>>,
    at: usize,
    ts: u64,
    states: &VecDeque<(u64, Vec<Double>)>,
    range: u64,
) -> (found: Option<usize>)
    requires
        at < frames@.len(),
        states@.len() > 0,
    ensures
        ({
            let picked = pick(frames@, at as int, ts, states_of(states@).skip(1), range);
            match found {
                Some(i) => i < frames@.len() && picked == Some(i as int),
                None => picked is None,
            }
        }),
{
    let here: u64 = abs_diff(ts, frames[at].timestamp_us);
    let here_free: bool = here < range && !is_claimed(states, frames[at].timestamp_us, ts);
    let len: usize = frames.len();
    if at + 1 < len {
        let next: u64 = abs_diff(ts, frames[at + 1].timestamp_us);
        if next < range && (!here_free || next < here) && !is_claimed(
            states,
            frames[at + 1].timestamp_us,
            ts,
        ) {
            return Some(at + 1);
        }
    }
    if here_free {
        Some(at)
    } else {
        None
    }
}

impl SyncBuffer {
    spec fn track(&self, i: int) -> TrackView {
        TrackView {
            frames: self.video_buffers@[i]@,
            cursor: self.cursors@[i] as int,
            last_emitted: self.last_emitted@[i],
        }
    }

    /// The parts of the buffer agree on the number of tracks, and no part exceeds its
    /// configured size.
    pub closed spec fn wf(&self) -> bool {
        &&& self.shape()
        &&& within_limits(self@)
    }

    /// A buffer is within its limits at all times.
    pub proof fn law_buffer_is_bounded(&self)
        requires
            self.wf(),
        ensures
            self@.names.len() == self@.tracks.len(),
            within_limits(self@),
            cursors_valid(self@),
    {
    }

    spec fn shape(&self) -> bool {
        &&& self.video_buffers@.len() == self.track_names@.len()
        &&& self.cursors@.len() == self.track_names@.len()
        &&& self.last_emitted@.len() == self.track_names@.len()
    }

    /// Moves the cursor of a track for the oldest state, at `ts`, and looks for its frame.
    fn match_track(&mut self, i: usize, ts: u64) -> (found: Option<usize>)
        requires
            old(self).shape(),
            i < old(self)@.tracks.len(),
            old(self)@.states.len() > 0,
        ensures
            final(self).shape(),
            final(self)@ == (SyncView {
                tracks: old(self)@.tracks.update(
                    i as int,
                    old(self)@.tracks[i as int].settle(ts),
                ),
                ..old(self)@
            }),
            ({
                let at = old(self)@.tracks[i as int].found(
                    ts,
                    old(self)@.later(),
                    old(self)@.config.search_range_us,
                );
                match found {
                    Some(k) => k < old(self)@.tracks[i as int].frames.len() && at == Some(
                        k as int,
                    ),
                    None => at is None,
                }
            }),
    {
        if self.video_buffers[i].len() == 0 {
            assert(self@.tracks =~= old(self)@.tracks.update(
                i as int,
                old(self)@.tracks[i as int].settle(ts),
            ));
            return None;
        }
        let cursor: usize = settle_cursor(&self.video_buffers[i], self.cursors[i], ts);
        let found: Option<usize> = pick_frame(
            &self.video_buffers[i],
            cursor,
            ts,
            &self.state_buffer,
            self.config.search_range_us,
        );
        self.cursors.set(i, cursor);
        assert(self@.tracks =~= old(self)@.tracks.update(
            i as int,
            old(self)@.tracks[i as int].settle(ts),
        ));
        found
    }

    /// Looks at the tracks for the oldest state, up to the first that can no longer get a
    /// frame.
    fn scan(&mut self) -> (decision: Scan)
        requires
            old(self).shape(),
            old(self)@.states.len() > 0,
        ensures
            final(self).shape(),
            match decision {
                Scan::Drop(i) => {
                    &&& first_true(old(self)@.hopeless_tracks()) == Some(i as int)
                    &&& final(self)@ == old(self)@.scanned(i + 1)
                },
                Scan::Wait(i) => {
                    &&& first_true(old(self)@.hopeless_tracks()) is None
                    &&& first_true(old(self)@.blocked_tracks()) == Some(i as int)
                    &&& final(self)@ == old(self)@.scanned(old(self)@.tracks.len() as int)
                },
                Scan::Emit(found) => {
                    &&& first_true(old(self)@.hopeless_tracks()) is None
                    &&& first_true(old(self)@.blocked_tracks()) is None
                    &&& final(self)@ == old(self)@.scanned(old(self)@.tracks.len() as int)
                    &&& found@.len() == old(self)@.tracks.len()
                    &&& forall|j: int|
                        0 <= j < found@.len() ==> Self::chosen(
                            old(self)@,
                            j,
                            #[trigger] found@[j],
                        )
                },
            },
    {
        let ghost start = self@;
        let ts: u64 = self.state_buffer[0].0;
        let range: u64 = self.config.search_range_us;
        let reuse: bool = self.config.reuse_stale_frames;
        let mut found: Vec<Option<usize>> = Vec::new();
        let mut blocked: Option<usize> = None;
        let mut i: usize = 0;
        assert(self@.tracks =~= start.scanned(0).tracks);
        while i < self.video_buffers.len()
            invariant
                start == old(self)@,
                start.states.len() > 0,
                ts == start.head_ts(),
                range == start.config.search_range_us,
                reuse == start.config.reuse_stale_frames,
                self.shape(),
                self.video_buffers@.len() == start.tracks.len(),
                i <= start.tracks.len(),
                self@ == start.scanned(i as int),
                found@.len() == i,
                forall|j: int| 0 <= j < i ==> !#[trigger] start.hopeless_tracks()[j],
                match blocked {
                    Some(b) => b < i && is_first(start.blocked_tracks(), b as int),
                    None => {
                        &&& forall|j: int| 0 <= j < i ==> !#[trigger] start.blocked_tracks()[j]
                        &&& forall|j: int|
                            0 <= j < i ==> Self::chosen(start, j, #[trigger] found@[j])
                    },
                },
            decreases start.tracks.len() - i,
        {
            let ghost before = self@;
            let ghost track = start.tracks[i as int];
            assert(before.tracks[i as int] == track);
            assert(start.hopeless_tracks()[i as int] == track.hopeless(ts, start.later(), start.config));
            assert(start.blocked_tracks()[i as int] == track.blocked(ts, start.later(), start.config));
            let at: Option<usize> = self.match_track(i, ts);
            assert(self@.tracks =~= start.scanned(i + 1).tracks);
            found.push(at);
            if at.is_none() && !(reuse && self.last_emitted[i].is_some()) {
                assert(self@.tracks[i as int].last_emitted == track.last_emitted);
                let held: usize = self.video_buffers[i].len();
                assert(self@.tracks[i as int].frames == track.frames);
                if held > 0 {
                    let newest: u64 = self.video_buffers[i][held - 1].timestamp_us;
                    let end: u64 = if range > u64::MAX - ts {
                        u64::MAX
                    } else {
                        ts + range
                    };
                    if newest >= end {
                        proof {
                            assert(track.hopeless(ts, start.later(), start.config));
                            crate::sync_model::lemma_first_true_is(
                                start.hopeless_tracks(),
                                i as int,
                            );
                        }
                        return Scan::Drop(i);
                    }
                }
                assert(track.blocked(ts, start.later(), start.config));
                if blocked.is_none() {
                    blocked = Some(i);
                }
            } else {
                assert(self@.tracks[i as int].last_emitted == track.last_emitted);
            }
            i += 1;
        }
        proof {
            crate::sync_model::lemma_first_true_none(start.hopeless_tracks());
            crate::sync_model::lemma_first_true_none(start.blocked_tracks());
        }
        match blocked {
            Some(b) => {
                proof {
                    crate::sync_model::lemma_first_true_is(start.blocked_tracks(), b as int);
                }
                Scan::Wait(b)
            },
            None => Scan::Emit(found),
        }
    }

    /// Takes the oldest state out together with its frames, once every track was matched.
    fn emit(&mut self, found: Vec<Option<usize>>, Ghost(start): Ghost<SyncView>) -> (emitted: (
        Observation,
        SyncEvent,
    ))
        requires
            old(self).shape(),
            start.states.len() > 0,
            old(self)@ == start.scanned(start.tracks.len() as int),
            found@.len() == start.tracks.len(),
            forall|j: int|
                0 <= j < found@.len() ==> Self::chosen(start, j, #[trigger] found@[j]),
        ensures
            final(self).shape(),
            final(self)@ == start.after_emit(),
            emitted.0@ == start.head_observation(),
            start.emit_output().events == seq![emitted.1],
    {
        let ghost n = start.tracks.len() as int;
        let ghost pairs = paired(start.names, start.head_frames());
        let ts: u64 = self.state_buffer[0].0;
        let mut frames: FieldMap<Arc<VideoFrameData>> = FieldMap::new();
        let mut worst: u64 = 0;
        let mut stale: bool = false;
        let mut i: usize = 0;
        assert(pairs.take(0) =~= Seq::empty());
        assert(self.track_names@.len() == self@.tracks.len());
        assert(start.tracks.len() == self@.tracks.len());
        while i < self.track_names.len()
            invariant
                start.states.len() > 0,
                ts == start.head_ts(),
                n == start.tracks.len(),
                pairs == paired(start.names, start.head_frames()),
                found@.len() == n,
                forall|j: int|
                    0 <= j < found@.len() ==> Self::chosen(start, j, #[trigger] found@[j]),
                self.shape(),
                self.track_names@.len() == n,
                i <= n,
                self@ == (SyncView { tracks: self@.tracks, ..start }),
                self@.tracks.len() == n,
                forall|j: int|
                    i <= j < n ==> #[trigger] self@.tracks[j] == start.tracks[j].settle(ts),
                forall|j: int|
                    0 <= j < i ==> #[trigger] self@.tracks[j] == start.tracks[j].consumed(
                        ts,
                        start.later(),
                        start.config,
                    ),
                frames@ == collect(pairs.take(i as int)),
                worst == worst_delta(start.head_frames(), ts, i as int),
                stale <==> exists|j: int|
                    0 <= j < i && (#[trigger] start.tracks[j]).stale(
                        ts,
                        start.later(),
                        start.config,
                    ),
            decreases n - i,
        {
            let ghost before = self@.tracks;
            let ghost track = start.tracks[i as int];
            assert(before[i as int] == track.settle(ts));
            assert(Self::chosen(start, i as int, found@[i as int]));
            let frame: Arc<VideoFrameData>;
            match found[i] {
                Some(k) => {
                    let held: usize = self.video_buffers[i].len();
                    assert(k < held);
                    frame = self.video_buffers[i][k].clone();
                    drop_front(&mut self.video_buffers[i], k + 1);
                    let cursor: usize = self.cursors[i];
                    self.cursors.set(
                        i,
                        if cursor >= k + 1 {
                            cursor - (k + 1)
                        } else {
                            0
                        },
                    );
                    self.last_emitted.set(i, Some(frame.clone()));
                    assert(self@.tracks[i as int] =~= track.consumed(ts, start.later(), start.config));
                    assert(!track.stale(ts, start.later(), start.config));
                },
                None => {
                    frame = self.last_emitted[i].as_ref().unwrap().clone();
                    stale = true;
                    assert(track.stale(ts, start.later(), start.config));
                },
            }
            assert(frame == start.head_frames()[i as int]);
            let d: u64 = abs_diff(ts, frame.timestamp_us);
            if d > worst {
                worst = d;
            }
            frames.insert(self.track_names[i].clone(), frame);
            proof {
                assert(self@.names[i as int] == self.track_names@[i as int]@);
                assert(pairs.take(i + 1).drop_last() =~= pairs.take(i as int));
                assert(pairs.take(i + 1).last() == pairs[i as int]);
                assert forall|j: int| i < j < n implies #[trigger] self@.tracks[j]
                    == start.tracks[j].settle(ts) by {
                    assert(before[j] == start.tracks[j].settle(ts));
                }
                assert forall|j: int| 0 <= j < i implies #[trigger] self@.tracks[j]
                    == start.tracks[j].consumed(ts, start.later(), start.config) by {
                    assert(before[j] == start.tracks[j].consumed(ts, start.later(), start.config));
                }
            }
            i += 1;
        }
        assert(pairs.take(n) =~= pairs);
        let state: FieldMap<Double> = to_field_map(
            self.state_fields.as_slice(),
            self.state_buffer[0].1.as_slice(),
        );
        let ghost matched = self@.tracks;
        let _ = self.state_buffer.pop_front();
        assert(self@.states =~= start.states.skip(1));
        assert(self@.tracks =~= matched);
        assert(self@.tracks =~= start.after_emit().tracks);
        (
            Observation { state, frames, timestamp_us: ts },
            SyncEvent::Observed { worst_delta_us: worst, stale },
        )
    }

    /// Emits and drops states until one has to wait or none is left. All that can be done is
    /// done: a second look right away finds nothing to settle.
    pub fn try_sync(&mut self) -> (out: SyncOutput)
        requires
            old(self).wf(),
        ensures
            final(self).wf(),
            (final(self)@, out@) == old(self)@.run(),
            final(self)@.run().0 == final(self)@,
            final(self)@.run().1.observations.len() == 0,
            final(self)@.run().1.drops.len() == 0,
            final(self)@.run().1.evicted.len() == 0,
    {
        let mut out = SyncOutput::empty();
        proof {
            let rest = self@.run();
            assert(out@.then_output(rest.1) =~= rest.1);
        }
        while self.state_buffer.len() > 0
            invariant
                self.shape(),
                old(self).wf(),
                old(self)@.run() == (self@.run().0, out@.then_output(self@.run().1)),
            decreases self@.states.len(),
        {
            let ghost start = self@;
            let ghost before = out@;
            let ghost rest = start.run();
            assert(self@.states.len() == self.state_buffer@.len());
            match self.scan() {
                Scan::Drop(i) => {
                    let ghost scanned = self@;
                    let fields: FieldMap<Double> = to_field_map(
                        self.state_fields.as_slice(),
                        self.state_buffer[0].1.as_slice(),
                    );
                    let _ = self.state_buffer.pop_front();
                    assert(self@.states =~= start.states.skip(1));
                    assert(self@.tracks =~= scanned.tracks);
                    assert(self@ == start.after_drop(i as int));
                    out.push_drop(fields);
                    out.push_event(SyncEvent::StatesDropped { count: 1 });
                    proof {
                        assert(out@ =~= before.then_output(start.drop_output()));
                        lemma_output_assoc(before, start.drop_output(), self@.run().1);
                    }
                },
                Scan::Wait(i) => {
                    let ghost scanned = self@;
                    self.blocker = Some(i);
                    assert(self@.tracks =~= scanned.tracks);
                    assert(self@ == start.after_wait(i as int));
                    out.push_event(SyncEvent::Blocked { track: i });
                    assert(out@ =~= before.then_output(start.wait_output(i as int)));
                    proof {
                        law_run_shrinks(old(self)@);
                        lemma_limits_shrink(old(self)@, self@);
                        law_run_is_stable(old(self)@);
                    }
                    return out;
                },
                Scan::Emit(found) => {
                    let (observation, event) = self.emit(found, Ghost(start));
                    out.push_observation(observation);
                    out.push_event(event);
                    proof {
                        assert(start.emit_output().events[0] == event);
                        assert(out@ =~= before.then_output(start.emit_output()));
                        lemma_output_assoc(before, start.emit_output(), self@.run().1);
                    }
                },
            }
        }
        let ghost last = self@;
        self.blocker = None;
        assert(self@.tracks =~= last.tracks);
        assert(out@.then_output(OutputView::empty()) =~= out@);
        proof {
            law_run_shrinks(old(self)@);
            lemma_limits_shrink(old(self)@, self@);
            law_run_is_stable(old(self)@);
        }
        out
    }

    /// An empty buffer for the given video tracks and state fields.
    pub fn new(video_track_names: &[String], state_fields: Vec<String>, config: SyncConfig) -> (buf:
        SyncBuffer)
        ensures
            buf.wf(),
            buf@.names == texts(video_track_names@),
            buf@.fields == texts(state_fields@),
            buf@.config == config,
            buf@.tracks.len() == video_track_names@.len(),
            buf@ == buf@.cleared(),
    {
        let mut buf = SyncBuffer {
            track_names: Vec::new(),
            video_buffers: Vec::new(),
            state_buffer: VecDeque::new(),
            state_fields,
            config,
            cursors: Vec::new(),
            blocker: None,
            last_emitted: Vec::new(),
        };
        let mut i: usize = 0;
        while i < video_track_names.len()
            invariant
                i <= video_track_names@.len(),
                buf.shape(),
                buf.track_names@.len() == i,
                buf.state_fields == state_fields,
                buf.config == config,
                buf.state_buffer@.len() == 0,
                buf.blocker is None,
                forall|j: int|
                    0 <= j < i ==> (#[trigger] buf.track_names@[j])@ == video_track_names@[j]@,
                forall|j: int|
                    0 <= j < i ==> {
                        &&& (#[trigger] buf.video_buffers@[j])@ == Seq::<
                            Arc<VideoFrameData>,
                        >::empty()
                        &&& buf.cursors@[j] == 0
                        &&& buf.last_emitted@[j] is None
                    },
            decreases video_track_names@.len() - i,
        {
            buf.track_names.push(video_track_names[i].clone());
            buf.video_buffers.push(VecDeque::new());
            buf.cursors.push(0);
            buf.last_emitted.push(None);
            i += 1;
        }
        assert(buf@.names =~= texts(video_track_names@));
        assert forall|j: int| 0 <= j < buf@.tracks.len() implies #[trigger] buf@.tracks[j]
            == buf@.cleared().tracks[j] by {
            assert(buf.video_buffers@[j]@ == Seq::<Arc<VideoFrameData>>::empty());
        }
        assert(buf@.tracks =~= buf@.cleared().tracks);
        assert(buf@.states =~= buf@.cleared().states);
        buf
    }

    /// Where a track stands. Of several tracks of one name, the last.
    pub fn track_index(&self, track_name: &str) -> (at: Option<usize>)
        requires
            self.wf(),
        ensures
            match at {
                Some(i) => is_last_named(self@.names, track_name@, i as int),
                None => !self@.names.contains(track_name@),
            },
    {
        let mut i: usize = self.track_names.len();
        while i > 0
            invariant
                i <= self.track_names@.len(),
                self@.names.len() == self.track_names@.len(),
                forall|j: int|
                    i <= j < self@.names.len() ==> #[trigger] self@.names[j] != track_name@,
            decreases i,
        {
            i -= 1;
            assert(self@.names[i as int] == self.track_names@[i as int]@);
            if same_text(self.track_names[i].as_str(), track_name) {
                return Some(i);
            }
        }
        None
    }

    /// Takes in a frame of a video track. Frames of unknown tracks are ignored.
    pub fn push_frame(&mut self, track_name: &str, frame: Arc<VideoFrameData>) -> (out: SyncOutput)
        requires
            old(self).wf(),
        ensures
            final(self).wf(),
            !old(self)@.names.contains(track_name@) ==> final(self)@ == old(self)@ && out@
                == OutputView::empty(),
            forall|i: int| #[trigger]
                is_last_named(old(self)@.names, track_name@, i) ==> (final(self)@, out@) == old(
                    self,
                )@.frame_pushed(i, frame),
    {
        let i: usize = match self.track_index(track_name) {
            Some(i) => i,
            None => {
                return SyncOutput::empty();
            },
        };
        let ghost start = self@;
        proof {
            assert forall|k: int| #[trigger] is_last_named(start.names, track_name@, k) implies k
                == i by {
                if k < i {
                    assert(start.names[i as int] != track_name@);
                } else if i < k {
                    assert(start.names[k] != track_name@);
                }
            }
        }
        let cap: usize = self.config.video_buffer_size as usize;
        self.video_buffers[i].push_back(frame);
        let held: usize = self.video_buffers[i].len();
        let evicted: usize = if held > cap {
            held - cap
        } else {
            0
        };
        let mut out = SyncOutput::empty();
        drop_front(&mut self.video_buffers[i], evicted);
        if evicted > 0 {
            let cursor: usize = self.cursors[i];
            self.cursors.set(
                i,
                if cursor >= evicted {
                    cursor - evicted
                } else {
                    0
                },
            );
            out.push_event(SyncEvent::FramesEvicted { track: i, count: evicted as u64 });
        }
        let ghost noted = out@;
        let ghost track = start.tracks[i as int].pushed(frame, cap as int);
        proof {
            assert(start.tracks[i as int].frames.push(frame).skip(0)
                =~= start.tracks[i as int].frames.push(frame));
            assert(self@.tracks[i as int] =~= track);
            assert(self@.tracks =~= start.tracks.update(i as int, track));
            if evicted > 0 {
                assert(noted.events =~= seq![
                    SyncEvent::FramesEvicted { track: i, count: evicted as u64 },
                ]);
            }
        }
        proof {
            law_limits_are_kept(
                start,
                i as int,
                frame,
                StateView { timestamp_us: 0, values: Seq::empty() },
            );
        }
        let wanted: bool = match self.blocker {
            None => true,
            Some(b) => b == i || evicted > 0,
        };
        if wanted {
            let mut rest: SyncOutput = self.try_sync();
            let ghost later = rest@;
            out.append(&mut rest);
            assert(out@ =~= noted.then_output(later));
        }
        out
    }

    /// Takes in a state. Where too many wait, the oldest give way.
    pub fn push_state(&mut self, timestamp_us: u64, values: Vec<Double>) -> (out: SyncOutput)
        requires
            old(self).wf(),
        ensures
            final(self).wf(),
            (final(self)@, out@) == old(self)@.state_pushed(
                StateView { timestamp_us, values: values@ },
            ),
    {
        let ghost start = self@;
        let ghost state = StateView { timestamp_us, values: values@ };
        let cap: usize = self.config.state_buffer_size as usize;
        self.state_buffer.push_back((timestamp_us, values));
        let held: usize = self.state_buffer.len();
        let dropped: usize = if held > cap {
            held - cap
        } else {
            0
        };
        let mut out = SyncOutput::empty();
        let ghost all = self@;
        assert(all.states =~= start.states.push(state));
        let ghost gone = Seq::new(dropped as nat, |m: int| all.fields_of(m));
        let mut i: usize = 0;
        while i < dropped
            invariant
                i <= dropped <= self.state_buffer@.len(),
                all == self@,
                gone == Seq::new(dropped as nat, |m: int| all.fields_of(m)),
                out@ == (OutputView { evicted: gone.take(i as int), ..OutputView::empty() }),
            decreases dropped - i,
        {
            let fields: FieldMap<Double> = to_field_map(
                self.state_fields.as_slice(),
                self.state_buffer[i].1.as_slice(),
            );
            assert(all.states[i as int].values == self.state_buffer@[i as int].1@);
            out.push_evicted(fields);
            assert(gone.take(i + 1) =~= gone.take(i as int).push(fields@));
            i += 1;
        }
        assert(gone.take(dropped as int) =~= gone);
        drop_front(&mut self.state_buffer, dropped);
        if dropped > 0 {
            out.push_event(SyncEvent::StatesDropped { count: dropped as u64 });
        }
        let ghost noted = out@;
        proof {
            assert(self@.states =~= start.states.push(state).skip(dropped as int));
            assert(self@.tracks =~= start.tracks);
            if dropped > 0 {
                assert(noted.events =~= seq![
                    SyncEvent::StatesDropped { count: dropped as u64 },
                ]);
            }
        }
        let mut rest: SyncOutput = self.try_sync();
        let ghost later = rest@;
        out.append(&mut rest);
        assert(out@ =~= noted.then_output(later));
        out
    }

    /// Forgets all frames and states.
    pub fn clear(&mut self)
        requires
            old(self).wf(),
        ensures
            final(self).wf(),
            final(self)@ == old(self)@.cleared(),
    {
        let ghost start = self@;
        let mut i: usize = 0;
        while i < self.video_buffers.len()
            invariant
                self.shape(),
                self.track_names == old(self).track_names,
                self.state_fields == old(self).state_fields,
                self.config == old(self).config,
                i <= self.video_buffers@.len(),
                forall|j: int| 0 <= j < i ==> (#[trigger] self.video_buffers@[j])@.len() == 0,
                forall|j: int| 0 <= j < i ==> #[trigger] self.cursors@[j] == 0,
                forall|j: int| 0 <= j < i ==> #[trigger] self.last_emitted@[j] is None,
            decreases self.video_buffers@.len() - i,
        {
            let none: VecDeque<Arc<VideoFrameData>> = VecDeque::new();
            self.video_buffers.set(i, none);
            self.cursors.set(i, 0);
            self.last_emitted.set(i, None);
            i += 1;
        }
        self.state_buffer.clear();
        self.blocker = None;
        assert forall|j: int| 0 <= j < self@.tracks.len() implies #[trigger] self@.tracks[j]
            == start.cleared().tracks[j] by {
            assert(self.video_buffers@[j]@.len() == 0);
            assert(self.cursors@[j] == 0);
            assert(self.last_emitted@[j] is None);
            assert(self@.tracks[j] =~= start.cleared().tracks[j]);
        }
        assert(self@.tracks =~= start.cleared().tracks);
        assert(self@.states =~= start.cleared().states);
    }

    /// How many frames each track holds, by name.
    pub fn video_fill_snapshot(&self) -> (fill: FieldMap<usize>)
        requires
            self.wf(),
        ensures
            fill@ == collect(
                paired(
                    self@.names,
                    self@.tracks.map_values(|t: TrackView| t.frames.len() as usize),
                ),
            ),
    {
        let ghost all = paired(
            self@.names,
            self@.tracks.map_values(|t: TrackView| t.frames.len() as usize),
        );
        let mut fill: FieldMap<usize> = FieldMap::new();
        let mut i: usize = 0;
        assert(all.take(0) =~= Seq::empty());
        while i < self.track_names.len()
            invariant
                self.wf(),
                all == paired(
                    self@.names,
                    self@.tracks.map_values(|t: TrackView| t.frames.len() as usize),
                ),
                all.len() == self.track_names@.len(),
                i <= all.len(),
                fill@ == collect(all.take(i as int)),
            decreases all.len() - i,
        {
            fill.insert(self.track_names[i].clone(), self.video_buffers[i].len());
            assert(all.take(i + 1).drop_last() =~= all.take(i as int));
            i += 1;
        }
        assert(all.take(i as int) =~= all);
        fill
    }

    /// How many states wait.
    pub fn state_fill(&self) -> (fill: usize)
        ensures
            fill == self@.states.len(),
    {
        self.state_buffer.len()
    }

    /// The frames a track holds, oldest first.
    pub fn video_buffer(&self, track: usize) -> (frames: &VecDeque<Arc<VideoFrameData>>)
        requires
            self.wf(),
            track < self@.tracks.len(),
        ensures
            frames@ == self@.tracks[track as int].frames,
    {
        &self.video_buffers[track]
    }

    /// Where the cursor of a track stands.
    pub fn cursor(&self, track: usize) -> (at: usize)
        requires
            self.wf(),
            track < self@.tracks.len(),
        ensures
            at == self@.tracks[track as int].cursor,
    {
        self.cursors[track]
    }

    /// The track that the oldest state was last found to wait for.
    pub fn blocker(&self) -> (track: Option<usize>)
        ensures
            match track {
                Some(i) => self@.blocker == Some(i as int),
                None => self@.blocker is None,
            },
    {
        self.blocker
    }

    /// `at` is where track `j` has its frame for the oldest state; without one, the track
    /// falls back to its last emitted frame.
    spec fn chosen(buffer: SyncView, j: int, at: Option<usize>) -> bool {
        let track = buffer.tracks[j];
        let found = track.found(
            buffer.head_ts(),
            buffer.later(),
            buffer.config.search_range_us,
        );
        match at {
            Some(k) => k < track.frames.len() && found == Some(k as int),
            None => track.stale(buffer.head_ts(), buffer.later(), buffer.config),
        }
    }
}

/// An output lists what came out, in order, and the states of a buffer are those that it queued.
pub proof fn law_output_is_in_order(
    out: SyncOutput,
    states: Seq<(u64, Vec<Double>)>,
    i: int,
)
    ensures
        out@.observations.len() == out.observations@.len(),
        out@.drops.len() == out.drops@.len(),
        out@.evicted.len() == out.evicted@.len(),
        out@.events == out.events@,
        states_of(states).len() == states.len(),
        0 <= i < out.observations@.len() ==> out@.observations[i] == out.observations@[i]@,
        0 <= i < out.drops@.len() ==> out@.drops[i] == out.drops@[i]@,
        0 <= i < out.evicted@.len() ==> out@.evicted[i] == out.evicted@[i]@,
        0 <= i < states.len() ==> states_of(states)[i].timestamp_us == states[i].0
            && states_of(states)[i].values == states[i].1@,
{
}

} // verus!
