//! A buffer whose observations wait until they are asked for.
//!
//! Every frame of a track is looked at for every state, so frames may arrive in any order.

use std::collections::VecDeque;
use std::sync::Arc;

use vstd::prelude::*;

use crate::double::Double;
use crate::ffi::copy_fields;
use crate::field_map::{collect, FieldMap};
use crate::sync_buffer::{drop_front, states_of};
use crate::sync_model::{delta, in_range, overflow, StateView};
use crate::text::{has_text, same_text};
use crate::types::{
    paired, texts, to_field_map, Observation, ObservationView, SyncConfig, VideoFrameData,
};

verus! {

/// Frame `i` is within range of a state at `ts`, no frame is nearer, and none before it is as
/// near.
pub open spec fn is_best(frames: Seq<Arc<VideoFrameData>>, ts: u64, range: u64, i: int) -> bool {
    &&& 0 <= i < frames.len()
    &&& in_range(frames[i].timestamp_us, ts, range)
    &&& forall|j: int|
        0 <= j < frames.len() ==> delta(ts, frames[i].timestamp_us) <= delta(
            ts,
            (#[trigger] frames[j]).timestamp_us,
        )
    &&& forall|j: int|
        0 <= j < i ==> delta(ts, frames[i].timestamp_us) < delta(
            ts,
            (#[trigger] frames[j]).timestamp_us,
        )
}

/// The frame that a state at `ts` takes.
pub open spec fn best(frames: Seq<Arc<VideoFrameData>>, ts: u64, range: u64) -> Option<int> {
    if exists|i: int| is_best(frames, ts, range, i) {
        Some(choose|i: int| is_best(frames, ts, range, i))
    } else {
        None
    }
}

/// There are frames, and all of them lie past the window of a state at `ts`.
pub open spec fn all_later(frames: Seq<Arc<VideoFrameData>>, ts: u64, range: u64) -> bool {
    &&& frames.len() > 0
    &&& forall|j: int|
        0 <= j < frames.len() ==> (#[trigger] frames[j]).timestamp_us > ts + range
}

/// The names of a list, each once, in order of first occurrence.
pub open spec fn unique(names: Seq<Seq<char>>) -> Seq<Seq<char>>
    decreases names.len(),
{
    if names.len() == 0 {
        Seq::empty()
    } else {
        let before = unique(names.drop_last());
        if before.contains(names.last()) {
            before
        } else {
            before.push(names.last())
        }
    }
}

/// What a buffer holds.
#[verifier::ext_equal]
pub struct PullView {
    pub names: Seq<Seq<char>>,
    pub fields: Seq<Seq<char>>,
    pub config: SyncConfig,
    pub buffers: Seq<Seq<Arc<VideoFrameData>>>,
    pub states: Seq<StateView>,
    /// Observations that wait to be asked for, oldest first.
    pub queue: Seq<ObservationView>,
}

/// What the callbacks are told, in order.
#[verifier::ext_equal]
pub struct PullOutputView {
    pub observations: Seq<ObservationView>,
    pub drops: Seq<Map<Seq<char>, Double>>,
}

impl PullOutputView {
    pub open spec fn empty() -> PullOutputView {
        PullOutputView { observations: Seq::empty(), drops: Seq::empty() }
    }
}

impl PullView {
    pub open spec fn head_ts(self) -> u64 {
        self.states[0].timestamp_us
    }

    /// The frame of track `i` for the oldest state.
    pub open spec fn choice(self, i: int) -> Option<int> {
        best(self.buffers[i], self.head_ts(), self.config.search_range_us)
    }

    /// Track `i` is the first without a frame for the oldest state.
    pub open spec fn first_unmatched(self, i: int) -> bool {
        &&& 0 <= i < self.buffers.len()
        &&& self.choice(i) is None
        &&& forall|j: int| 0 <= j < i ==> #[trigger] self.choice(j) is Some
    }

    /// Every track has a frame for the oldest state.
    pub open spec fn all_matched(self) -> bool {
        forall|j: int| 0 <= j < self.buffers.len() ==> #[trigger] self.choice(j) is Some
    }

    pub open spec fn head_fields(self) -> Map<Seq<char>, Double> {
        collect(paired(self.fields, self.states[0].values))
    }

    /// The frames of the oldest state, by track.
    pub open spec fn head_frames(self) -> Seq<Arc<VideoFrameData>> {
        Seq::new(self.buffers.len(), |i: int| self.buffers[i][self.choice(i)->0])
    }

    pub open spec fn head_observation(self) -> ObservationView {
        ObservationView {
            state: self.head_fields(),
            frames: collect(paired(self.names, self.head_frames())),
            timestamp_us: self.head_ts(),
        }
    }

    pub open spec fn after_drop(self) -> PullView {
        PullView { states: self.states.skip(1), ..self }
    }

    /// The oldest state is emitted: its frames and all before them leave, and the oldest
    /// observations give way where too many wait.
    pub open spec fn after_emit(self) -> PullView {
        let queue = self.queue.push(self.head_observation());
        PullView {
            states: self.states.skip(1),
            buffers: Seq::new(
                self.buffers.len(),
                |i: int| self.buffers[i].skip(self.choice(i)->0 + 1),
            ),
            queue: queue.skip(
                overflow(queue.len() as int, self.config.observation_buffer_size as int),
            ),
            ..self
        }
    }

    /// Emits and drops states, oldest first, until one has to wait or none is left. The first
    /// track without a frame decides.
    pub open spec fn run(self) -> (PullView, PullOutputView)
        decreases self.states.len(),
    {
        if self.states.len() == 0 {
            (self, PullOutputView::empty())
        } else if self.all_matched() {
            let rest = self.after_emit().run();
            (
                rest.0,
                PullOutputView {
                    observations: seq![self.head_observation()] + rest.1.observations,
                    ..rest.1
                },
            )
        } else {
            let i = choose|i: int| self.first_unmatched(i);
            if all_later(self.buffers[i], self.head_ts(), self.config.search_range_us) {
                let rest = self.after_drop().run();
                (
                    rest.0,
                    PullOutputView { drops: seq![self.head_fields()] + rest.1.drops, ..rest.1 },
                )
            } else {
                (self, PullOutputView::empty())
            }
        }
    }

    /// A frame arrives on the track of this name, if there is one.
    pub open spec fn frame_added(self, name: Seq<char>, frame: Arc<VideoFrameData>) -> PullView {
        PullView {
            buffers: Seq::new(
                self.buffers.len(),
                |i: int|
                    if self.names[i] == name {
                        let all = self.buffers[i].push(frame);
                        all.skip(
                            overflow(all.len() as int, self.config.video_buffer_size as int),
                        )
                    } else {
                        self.buffers[i]
                    },
            ),
            ..self
        }
    }

    /// A state arrives; the oldest ones give way where there are too many.
    pub open spec fn state_added(self, state: StateView) -> PullView {
        let all = self.states.push(state);
        PullView {
            states: all.skip(overflow(all.len() as int, self.config.state_buffer_size as int)),
            ..self
        }
    }

    /// The states that give way to a new one, by field.
    pub open spec fn pushed_out(self, state: StateView) -> Seq<Map<Seq<char>, Double>> {
        let all = self.states.push(state);
        Seq::new(
            overflow(all.len() as int, self.config.state_buffer_size as int) as nat,
            |i: int| collect(paired(self.fields, all[i].values)),
        )
    }

    /// A state arrives. The ones that give way to it are dropped before the others are looked
    /// at.
    pub open spec fn state_pushed(self, state: StateView) -> (PullView, PullOutputView) {
        let rest = self.state_added(state).run();
        (
            rest.0,
            PullOutputView { drops: self.pushed_out(state) + rest.1.drops, ..rest.1 },
        )
    }

    pub open spec fn cleared(self) -> PullView {
        PullView {
            buffers: Seq::new(self.buffers.len(), |i: int| Seq::empty()),
            states: Seq::empty(),
            queue: Seq::empty(),
            ..self
        }
    }
}

/// What the callbacks are told, in order.
pub struct PullOutput {
    pub observations: Vec<Observation>,
    pub drops: Vec<FieldMap<Double>>,
}

impl View for PullOutput {
    type V = PullOutputView;

    open spec fn view(&self) -> PullOutputView {
        PullOutputView {
            observations: self.observations@.map_values(|o: Observation| o@),
            drops: self.drops@.map_values(|d: FieldMap<Double>| d@),
        }
    }
}

/// Holds states and frames until they can be put together, and observations until they are
/// asked for.
pub struct SyncBuffer {
    track_names: Vec<String>,
    video_buffers: Vec<VecDeque<Arc<VideoFrameData>>>,
    state_buffer: VecDeque<(u64, Vec<Double>)>,
    observation_buffer: VecDeque<Observation>,
    state_fields: Vec<String>,
    config: SyncConfig,
}

impl View for SyncBuffer {
    type V = PullView;

    closed spec fn view(&self) -> PullView {
        PullView {
            names: texts(self.track_names@),
            fields: texts(self.state_fields@),
            config: self.config,
            buffers: self.video_buffers@.map_values(|b: VecDeque<Arc<VideoFrameData>>| b@),
            states: states_of(self.state_buffer@),
            queue: self.observation_buffer@.map_values(|o: Observation| o@),
        }
    }
}

proof fn lemma_best_is(frames: Seq<Arc<VideoFrameData>>, ts: u64, range: u64, i: int)
    requires
        is_best(frames, ts, range, i),
    ensures
        best(frames, ts, range) == Some(i),
{
    let k = choose|k: int| is_best(frames, ts, range, k);
    assert(is_best(frames, ts, range, k));
    if k < i {
        assert(delta(ts, frames[i].timestamp_us) < delta(ts, frames[k].timestamp_us));
    } else if i < k {
        assert(delta(ts, frames[k].timestamp_us) < delta(ts, frames[i].timestamp_us));
    }
}

proof fn lemma_first_unmatched_is(buffer: PullView, i: int)
    requires
        buffer.first_unmatched(i),
    ensures
        !buffer.all_matched(),
        (choose|k: int| buffer.first_unmatched(k)) == i,
{
    let k = choose|k: int| buffer.first_unmatched(k);
    assert(buffer.first_unmatched(k));
    assert(buffer.choice(i) is None);
    if k < i {
        assert(buffer.choice(k) is Some);
    } else if i < k {
        assert(buffer.choice(i) is Some);
    }
}

/// The nearest frame within range.
fn find_best(frames: &VecDeque<Arc<VideoFrameData>>, ts: u64, range: u64) -> (found: Option<usize>)
    ensures
        match found {
            Some(i) => i < frames@.len() && best(frames@, ts, range) == Some(i as int),
            None => best(frames@, ts, range) is None,
        },
{
    let mut found: Option<usize> = None;
    let mut i: usize = 0;
    while i < frames.len()
        invariant
            i <= frames@.len(),
            match found {
                Some(k) => {
                    &&& k < i
                    &&& in_range(frames@[k as int].timestamp_us, ts, range)
                    &&& forall|j: int|
                        0 <= j < i ==> delta(ts, frames@[k as int].timestamp_us) <= delta(
                            ts,
                            (#[trigger] frames@[j]).timestamp_us,
                        )
                    &&& forall|j: int|
                        0 <= j < k ==> delta(ts, frames@[k as int].timestamp_us) < delta(
                            ts,
                            (#[trigger] frames@[j]).timestamp_us,
                        )
                },
                None => forall|j: int|
                    0 <= j < i ==> !in_range((#[trigger] frames@[j]).timestamp_us, ts, range),
            },
        decreases frames@.len() - i,
    {
        let d: u64 = distance(ts, frames[i].timestamp_us);
        if d < range {
            let nearer: bool = match found {
                Some(k) => d < distance(ts, frames[k].timestamp_us),
                None => true,
            };
            if nearer {
                found = Some(i);
            }
        }
        i += 1;
    }
    proof {
        match found {
            Some(k) => {
                assert(is_best(frames@, ts, range, k as int));
                lemma_best_is(frames@, ts, range, k as int);
            },
            None => {
                assert forall|k: int| !is_best(frames@, ts, range, k) by {
                    if 0 <= k < frames@.len() {
                        assert(!in_range(frames@[k].timestamp_us, ts, range));
                    }
                }
            },
        }
    }
    found
}

fn distance(a: u64, b: u64) -> (d: u64)
    ensures
        d == delta(a, b),
{
    if a <= b {
        b - a
    } else {
        a - b
    }
}

/// Whether there are frames and all of them lie past the window of a state.
fn check_all_later(frames: &VecDeque<Arc<VideoFrameData>>, ts: u64, range: u64) -> (later: bool)
    ensures
        later == all_later(frames@, ts, range),
{
    if frames.len() == 0 {
        return false;
    }
    let mut i: usize = 0;
    while i < frames.len()
        invariant
            i <= frames@.len(),
            forall|j: int| 0 <= j < i ==> (#[trigger] frames@[j]).timestamp_us > ts + range,
        decreases frames@.len() - i,
    {
        let t: u64 = frames[i].timestamp_us;
        if t <= ts || t - ts <= range {
            assert(frames@[i as int].timestamp_us <= ts + range);
            return false;
        }
        i += 1;
    }
    true
}

/// A copy of an observation, which shares the frames.
fn copy_observation(o: &Observation) -> (copy: Observation)
    ensures
        copy@ == o@,
{
    let n: usize = o.frames.len();
    let ghost pairs = o.frames.pairs();
    let mut frames: FieldMap<Arc<VideoFrameData>> = FieldMap::new();
    let mut i: usize = 0;
    assert(pairs.take(0) =~= Seq::empty());
    while i < n
        invariant
            n == o.frames.pairs().len(),
            pairs == o.frames.pairs(),
            i <= n,
            frames@ == collect(pairs.take(i as int)),
        decreases n - i,
    {
        frames.insert(o.frames.name_at(i).to_owned(), o.frames.value_at(i).clone());
        assert(pairs.take(i + 1).drop_last() =~= pairs.take(i as int));
        i += 1;
    }
    assert(pairs.take(i as int) =~= pairs);
    Observation { state: copy_fields(&o.state), frames, timestamp_us: o.timestamp_us }
}

/// What a look at all tracks decided about the oldest state.
enum Look {
    Drop,
    Wait,
    Emit(Vec<usize>),
}

impl SyncBuffer {
    /// Every track has a name of its own and a buffer.
    pub closed spec fn wf(&self) -> bool {
        &&& self.video_buffers@.len() == self.track_names@.len()
        &&& texts(self.track_names@).no_duplicates()
    }

    fn look(&self) -> (look: Look)
        requires
            self.wf(),
            self@.states.len() > 0,
        ensures
            match look {
                Look::Emit(at) => {
                    &&& self@.all_matched()
                    &&& at@.len() == self@.buffers.len()
                    &&& forall|j: int|
                        0 <= j < at@.len() ==> self@.choice(j) == Some(#[trigger] at@[j] as int)
                            && at@[j] < self@.buffers[j].len()
                },
                Look::Drop => {
                    &&& !self@.all_matched()
                    &&& all_later(
                        self@.buffers[choose|i: int| self@.first_unmatched(i)],
                        self@.head_ts(),
                        self@.config.search_range_us,
                    )
                },
                Look::Wait => {
                    &&& !self@.all_matched()
                    &&& !all_later(
                        self@.buffers[choose|i: int| self@.first_unmatched(i)],
                        self@.head_ts(),
                        self@.config.search_range_us,
                    )
                },
            },
    {
        let ts: u64 = self.state_buffer[0].0;
        let range: u64 = self.config.search_range_us;
        let mut at: Vec<usize> = Vec::new();
        let mut i: usize = 0;
        while i < self.video_buffers.len()
            invariant
                self.wf(),
                self@.states.len() > 0,
                ts == self@.head_ts(),
                range == self@.config.search_range_us,
                i <= self.video_buffers@.len(),
                at@.len() == i,
                forall|j: int|
                    0 <= j < i ==> self@.choice(j) == Some(#[trigger] at@[j] as int) && at@[j]
                        < self@.buffers[j].len(),
            decreases self.video_buffers@.len() - i,
        {
            assert(self@.buffers[i as int] == self.video_buffers@[i as int]@);
            match find_best(&self.video_buffers[i], ts, range) {
                Some(k) => {
                    at.push(k);
                },
                None => {
                    proof {
                        assert forall|j: int| 0 <= j < i implies #[trigger] self@.choice(
                            j,
                        ) is Some by {
                            assert(self@.choice(j) == Some(at@[j] as int));
                        }
                        assert(self@.first_unmatched(i as int));
                        lemma_first_unmatched_is(self@, i as int);
                    }
                    if check_all_later(&self.video_buffers[i], ts, range) {
                        return Look::Drop;
                    } else {
                        return Look::Wait;
                    }
                },
            }
            i += 1;
        }
        assert forall|j: int| 0 <= j < self@.buffers.len() implies #[trigger] self@.choice(
            j,
        ) is Some by {
            assert(self@.choice(j) == Some(at@[j] as int));
        }
        Look::Emit(at)
    }

    /// Takes the oldest state out together with its frames, and queues the observation.
    fn emit(&mut self, at: Vec<usize>) -> (told: Observation)
        requires
            old(self).wf(),
            old(self)@.states.len() > 0,
            old(self)@.all_matched(),
            at@.len() == old(self)@.buffers.len(),
            forall|j: int|
                0 <= j < at@.len() ==> old(self)@.choice(j) == Some(#[trigger] at@[j] as int)
                    && at@[j] < old(self)@.buffers[j].len(),
        ensures
            final(self).wf(),
            final(self)@ == old(self)@.after_emit(),
            told@ == old(self)@.head_observation(),
    {
        let ghost start = self@;
        let ghost pairs = paired(start.names, start.head_frames());
        let ts: u64 = self.state_buffer[0].0;
        let mut frames: FieldMap<Arc<VideoFrameData>> = FieldMap::new();
        let mut i: usize = 0;
        assert(pairs.take(0) =~= Seq::empty());
        while i < self.track_names.len()
            invariant
                start == old(self)@,
                start.states.len() > 0,
                pairs == paired(start.names, start.head_frames()),
                pairs.len() == start.buffers.len(),
                self.wf(),
                self.track_names == old(self).track_names,
                self.state_buffer == old(self).state_buffer,
                self.observation_buffer == old(self).observation_buffer,
                self.state_fields == old(self).state_fields,
                self.config == old(self).config,
                self@.buffers.len() == start.buffers.len(),
                i <= start.buffers.len(),
                at@.len() == start.buffers.len(),
                forall|j: int|
                    0 <= j < at@.len() ==> start.choice(j) == Some(#[trigger] at@[j] as int)
                        && at@[j] < start.buffers[j].len(),
                forall|j: int|
                    i <= j < start.buffers.len() ==> #[trigger] self@.buffers[j]
                        == start.buffers[j],
                forall|j: int|
                    0 <= j < i ==> #[trigger] self@.buffers[j] == start.buffers[j].skip(
                        start.choice(j)->0 + 1,
                    ),
                frames@ == collect(pairs.take(i as int)),
            decreases start.buffers.len() - i,
        {
            let ghost before = self@.buffers;
            assert(before[i as int] == start.buffers[i as int]);
            assert(self.video_buffers@[i as int]@ == before[i as int]);
            let k: usize = at[i];
            let held: usize = self.video_buffers[i].len();
            assert(k < held);
            let frame: Arc<VideoFrameData> = self.video_buffers[i][k].clone();
            assert(frame == start.head_frames()[i as int]);
            drop_front(&mut self.video_buffers[i], k + 1);
            frames.insert(self.track_names[i].clone(), frame);
            proof {
                assert(start.names[i as int] == self.track_names@[i as int]@);
                assert(pairs.take(i + 1).drop_last() =~= pairs.take(i as int));
                assert(pairs.take(i + 1).last() == pairs[i as int]);
                assert forall|j: int| i < j < start.buffers.len() implies #[trigger] self@.buffers[j]
                    == start.buffers[j] by {
                    assert(before[j] == start.buffers[j]);
                }
                assert forall|j: int| 0 <= j < i implies #[trigger] self@.buffers[j]
                    == start.buffers[j].skip(start.choice(j)->0 + 1) by {
                    assert(before[j] == start.buffers[j].skip(start.choice(j)->0 + 1));
                }
            }
            i += 1;
        }
        assert(pairs.take(i as int) =~= pairs);
        let state: FieldMap<Double> = to_field_map(
            self.state_fields.as_slice(),
            self.state_buffer[0].1.as_slice(),
        );
        let ghost matched = self@.buffers;
        let _ = self.state_buffer.pop_front();
        let observation = Observation { state, frames, timestamp_us: ts };
        let told: Observation = copy_observation(&observation);
        self.observation_buffer.push_back(observation);
        let cap: usize = self.config.observation_buffer_size as usize;
        let held: usize = self.observation_buffer.len();
        let extra: usize = if held > cap {
            held - cap
        } else {
            0
        };
        drop_front(&mut self.observation_buffer, extra);
        proof {
            assert(self@.states =~= start.states.skip(1));
            assert(self@.buffers =~= start.after_emit().buffers);
            assert(self@.queue =~= start.after_emit().queue);
        }
        told
    }

    fn try_sync(&mut self) -> (out: PullOutput)
        requires
            old(self).wf(),
        ensures
            final(self).wf(),
            (final(self)@, out@) == old(self)@.run(),
    {
        let mut observations: Vec<Observation> = Vec::new();
        let mut drops: Vec<FieldMap<Double>> = Vec::new();
        let ghost whole = self@.run();
        proof {
            assert(observations@.map_values(|o: Observation| o@) + whole.1.observations
                =~= whole.1.observations);
            assert(drops@.map_values(|d: FieldMap<Double>| d@) + whole.1.drops =~= whole.1.drops);
        }
        while self.state_buffer.len() > 0
            invariant
                self.wf(),
                whole == old(self)@.run(),
                whole.0 == self@.run().0,
                whole.1.observations == observations@.map_values(|o: Observation| o@)
                    + self@.run().1.observations,
                whole.1.drops == drops@.map_values(|d: FieldMap<Double>| d@) + self@.run().1.drops,
            decreases self@.states.len(),
        {
            let ghost start = self@;
            let ghost told = observations@.map_values(|o: Observation| o@);
            let ghost lost = drops@.map_values(|d: FieldMap<Double>| d@);
            assert(self@.states.len() == self.state_buffer@.len());
            match self.look() {
                Look::Emit(at) => {
                    let observation: Observation = self.emit(at);
                    observations.push(observation);
                    proof {
                        assert(observations@.map_values(|o: Observation| o@) =~= told.push(
                            start.head_observation(),
                        ));
                        assert(told + start.run().1.observations =~= told.push(
                            start.head_observation(),
                        ) + self@.run().1.observations);
                    }
                },
                Look::Drop => {
                    let fields: FieldMap<Double> = to_field_map(
                        self.state_fields.as_slice(),
                        self.state_buffer[0].1.as_slice(),
                    );
                    let _ = self.state_buffer.pop_front();
                    assert(self@.states =~= start.states.skip(1));
                    assert(self@.buffers =~= start.buffers);
                    drops.push(fields);
                    proof {
                        assert(self@ == start.after_drop());
                        assert(drops@.map_values(|d: FieldMap<Double>| d@) =~= lost.push(
                            start.head_fields(),
                        ));
                        assert(lost + start.run().1.drops =~= lost.push(start.head_fields())
                            + self@.run().1.drops);
                    }
                },
                Look::Wait => {
                    let out = PullOutput { observations, drops };
                    assert(out@.observations =~= whole.1.observations);
                    assert(out@.drops =~= whole.1.drops);
                    return out;
                },
            }
        }
        let out = PullOutput { observations, drops };
        assert(out@.observations =~= whole.1.observations);
        assert(out@.drops =~= whole.1.drops);
        out
    }

    /// An empty buffer for the given video tracks and state fields.
    pub fn new(video_track_names: &[String], state_fields: Vec<String>, config: SyncConfig) -> (buf:
        SyncBuffer)
        ensures
            buf.wf(),
            buf@.names == unique(texts(video_track_names@)),
            buf@.fields == texts(state_fields@),
            buf@.config == config,
            buf@.buffers.len() == buf@.names.len(),
            buf@ == buf@.cleared(),
    {
        let mut buf = SyncBuffer {
            track_names: Vec::new(),
            video_buffers: Vec::new(),
            state_buffer: VecDeque::new(),
            observation_buffer: VecDeque::new(),
            state_fields,
            config,
        };
        let ghost all = texts(video_track_names@);
        let mut i: usize = 0;
        assert(texts(buf.track_names@) =~= unique(all.take(0)));
        while i < video_track_names.len()
            invariant
                i <= video_track_names@.len(),
                all == texts(video_track_names@),
                buf.wf(),
                texts(buf.track_names@) == unique(all.take(i as int)),
                buf.state_fields == state_fields,
                buf.config == config,
                buf.state_buffer@.len() == 0,
                buf.observation_buffer@.len() == 0,
                forall|j: int|
                    0 <= j < buf.video_buffers@.len() ==> (#[trigger] buf.video_buffers@[j])@.len()
                        == 0,
            decreases video_track_names@.len() - i,
        {
            proof {
                assert(all.take(i + 1).drop_last() =~= all.take(i as int));
                assert(all.take(i + 1).last() == all[i as int]);
            }
            if !has_text(&buf.track_names, video_track_names[i].as_str()) {
                let ghost before = texts(buf.track_names@);
                buf.track_names.push(video_track_names[i].clone());
                buf.video_buffers.push(VecDeque::new());
                proof {
                    let after = texts(buf.track_names@);
                    assert(after =~= before.push(all[i as int]));
                    assert forall|a: int, b: int|
                        0 <= a < after.len() && 0 <= b < after.len() && a != b implies after[a]
                        != after[b] by {
                        if a < before.len() && b < before.len() {
                            assert(before[a] != before[b]);
                        } else if a < before.len() {
                            assert(before[a] != all[i as int]);
                        } else {
                            assert(before[b] != all[i as int]);
                        }
                    }
                }
            }
            i += 1;
        }
        assert(all.take(i as int) =~= all);
        proof {
            assert forall|j: int| 0 <= j < buf@.buffers.len() implies #[trigger] buf@.buffers[j]
                == buf@.cleared().buffers[j] by {
                assert(buf.video_buffers@[j]@.len() == 0);
                assert(buf@.buffers[j] =~= Seq::empty());
            }
            assert(buf@.buffers =~= buf@.cleared().buffers);
            assert(buf@.states =~= Seq::empty());
            assert(buf@.queue =~= Seq::empty());
        }
        buf
    }

    /// Takes in a frame. Frames of unknown tracks are ignored.
    pub fn push_frame(&mut self, track_name: &str, frame: Arc<VideoFrameData>) -> (out: PullOutput)
        requires
            old(self).wf(),
        ensures
            final(self).wf(),
            (final(self)@, out@) == old(self)@.frame_added(track_name@, frame).run(),
    {
        let ghost start = self@;
        let ghost want = start.frame_added(track_name@, frame);
        let cap: usize = self.config.video_buffer_size as usize;
        let mut i: usize = 0;
        while i < self.track_names.len()
            invariant
                self.wf(),
                self == old(self),
                start == self@,
                want == start.frame_added(track_name@, frame),
                cap == start.config.video_buffer_size,
                i <= self.track_names@.len(),
                forall|j: int| 0 <= j < i ==> #[trigger] start.names[j] != track_name@,
            decreases self.track_names@.len() - i,
        {
            assert(start.names[i as int] == self.track_names@[i as int]@);
            if same_text(self.track_names[i].as_str(), track_name) {
                self.video_buffers[i].push_back(frame);
                let held: usize = self.video_buffers[i].len();
                let extra: usize = if held > cap {
                    held - cap
                } else {
                    0
                };
                drop_front(&mut self.video_buffers[i], extra);
                proof {
                    assert forall|j: int| 0 <= j < want.buffers.len() implies #[trigger] self@.buffers[j]
                        == want.buffers[j] by {
                        assert(start.buffers[j] == old(self).video_buffers@[j]@);
                        assert(self@.buffers[j] == self.video_buffers@[j]@);
                        assert(start.names[i as int] == track_name@);
                        if j != i {
                            assert(start.names[j] != start.names[i as int]);
                            assert(self.video_buffers@[j] == old(self).video_buffers@[j]);
                        } else {
                            let all = start.buffers[j].push(frame);
                            assert(held == all.len());
                            assert(self.video_buffers@[j]@ == all.skip(extra as int));
                        }
                    }
                    assert(self@.buffers =~= want.buffers);
                    assert(self@ == want);
                }
                return self.try_sync();
            }
            i += 1;
        }
        assert(want.buffers =~= start.buffers);
        self.try_sync()
    }

    /// Takes in a state. Where too many wait, the oldest give way.
    pub fn push_state(&mut self, timestamp_us: u64, values: Vec<Double>) -> (out: PullOutput)
        requires
            old(self).wf(),
        ensures
            final(self).wf(),
            (final(self)@, out@) == old(self)@.state_pushed(
                StateView { timestamp_us, values: values@ },
            ),
    {
        let ghost start = self@;
        let ghost state = StateView { timestamp_us, values: values@ };
        let ghost want = start.state_added(state);
        let ghost gone = start.pushed_out(state);
        let cap: usize = self.config.state_buffer_size as usize;
        self.state_buffer.push_back((timestamp_us, values));
        let held: usize = self.state_buffer.len();
        let extra: usize = if held > cap {
            held - cap
        } else {
            0
        };
        let mut drops: Vec<FieldMap<Double>> = Vec::new();
        let mut i: usize = 0;
        assert(self@.states =~= start.states.push(state));
        while i < extra
            invariant
                i <= extra <= self.state_buffer@.len(),
                extra == gone.len(),
                gone == start.pushed_out(state),
                self@.states == start.states.push(state),
                self@.fields == start.fields,
                drops@.map_values(|d: FieldMap<Double>| d@) == gone.take(i as int),
            decreases extra - i,
        {
            let fields: FieldMap<Double> = to_field_map(
                self.state_fields.as_slice(),
                self.state_buffer[i].1.as_slice(),
            );
            assert(self@.states[i as int].values == self.state_buffer@[i as int].1@);
            let ghost before = drops@.map_values(|d: FieldMap<Double>| d@);
            drops.push(fields);
            assert(drops@.map_values(|d: FieldMap<Double>| d@) =~= before.push(fields@));
            assert(gone.take(i + 1) =~= gone.take(i as int).push(gone[i as int]));
            i += 1;
        }
        assert(gone.take(extra as int) =~= gone);
        drop_front(&mut self.state_buffer, extra);
        assert(self@.states =~= want.states);
        assert(self@.buffers =~= want.buffers);
        let mut rest: PullOutput = self.try_sync();
        let ghost later = rest@.drops;
        drops.append(&mut rest.drops);
        assert(drops@.map_values(|d: FieldMap<Double>| d@) =~= gone + later);
        PullOutput { observations: rest.observations, drops }
    }

    /// Forgets all frames, states and observations.
    pub fn clear(&mut self)
        requires
            old(self).wf(),
        ensures
            final(self).wf(),
            final(self)@ == old(self)@.cleared(),
    {
        let ghost start = self@;
        let mut i: usize = 0;
        while i < self.video_buffers.len()
            invariant
                self.wf(),
                self.track_names == old(self).track_names,
                self.state_fields == old(self).state_fields,
                self.config == old(self).config,
                self.video_buffers@.len() == start.buffers.len(),
                i <= self.video_buffers@.len(),
                forall|j: int| 0 <= j < i ==> (#[trigger] self.video_buffers@[j])@.len() == 0,
            decreases self.video_buffers@.len() - i,
        {
            let none: VecDeque<Arc<VideoFrameData>> = VecDeque::new();
            self.video_buffers.set(i, none);
            i += 1;
        }
        self.state_buffer.clear();
        self.observation_buffer.clear();
        proof {
            assert forall|j: int| 0 <= j < self@.buffers.len() implies #[trigger] self@.buffers[j]
                == start.cleared().buffers[j] by {
                assert(self.video_buffers@[j]@.len() == 0);
                assert(self@.buffers[j] =~= Seq::empty());
            }
            assert(self@.buffers =~= start.cleared().buffers);
            assert(self@.states =~= Seq::empty());
            assert(self@.queue =~= Seq::empty());
        }
    }

    /// Takes all waiting observations out, oldest first.
    pub fn take_observations(&mut self) -> (observations: Vec<Observation>)
        requires
            old(self).wf(),
        ensures
            final(self).wf(),
            observations@.map_values(|o: Observation| o@) == old(self)@.queue,
            final(self)@ == (PullView { queue: Seq::empty(), ..old(self)@ }),
    {
        let ghost all = self.observation_buffer@;
        let mut observations: Vec<Observation> = Vec::new();
        assert(all =~= observations@ + self.observation_buffer@);
        while self.observation_buffer.len() > 0
            invariant
                self.wf(),
                all == old(self).observation_buffer@,
                all == observations@ + self.observation_buffer@,
                self.track_names == old(self).track_names,
                self.video_buffers == old(self).video_buffers,
                self.state_buffer == old(self).state_buffer,
                self.state_fields == old(self).state_fields,
                self.config == old(self).config,
            decreases self.observation_buffer@.len(),
        {
            if let Some(o) = self.observation_buffer.pop_front() {
                observations.push(o);
            }
            assert(all =~= observations@ + self.observation_buffer@);
        }
        assert(observations@ =~= all);
        assert(self@.queue =~= Seq::empty());
        observations
    }

    /// The frames that a track holds, oldest first.
    pub fn video_buffer(&self, track: usize) -> (frames: &VecDeque<Arc<VideoFrameData>>)
        requires
            self.wf(),
            track < self@.buffers.len(),
        ensures
            frames@ == self@.buffers[track as int],
    {
        &self.video_buffers[track]
    }

    /// How many states wait.
    pub fn state_fill(&self) -> (fill: usize)
        ensures
            fill == self@.states.len(),
    {
        self.state_buffer.len()
    }

    /// How many observations wait.
    pub fn observation_fill(&self) -> (fill: usize)
        ensures
            fill == self@.queue.len(),
    {
        self.observation_buffer.len()
    }
}

/// A track has a frame for a state exactly where some frame is within range.
pub proof fn law_best_exists(frames: Seq<Arc<VideoFrameData>>, ts: u64, range: u64)
    ensures
        best(frames, ts, range) is Some <==> exists|j: int|
            0 <= j < frames.len() && in_range((#[trigger] frames[j]).timestamp_us, ts, range),
{
    if exists|j: int|
        0 <= j < frames.len() && in_range((#[trigger] frames[j]).timestamp_us, ts, range) {
        let j = choose|j: int|
            0 <= j < frames.len() && in_range((#[trigger] frames[j]).timestamp_us, ts, range);
        let i = lemma_nearest(frames, ts, frames.len() as int);
        assert(delta(ts, frames[i].timestamp_us) <= delta(ts, frames[j].timestamp_us));
        assert(is_best(frames, ts, range, i));
    }
}

proof fn lemma_nearest(frames: Seq<Arc<VideoFrameData>>, ts: u64, n: int) -> (i: int)
    requires
        0 < n <= frames.len(),
    ensures
        0 <= i < n,
        forall|j: int|
            0 <= j < n ==> delta(ts, frames[i].timestamp_us) <= delta(
                ts,
                (#[trigger] frames[j]).timestamp_us,
            ),
        forall|j: int|
            0 <= j < i ==> delta(ts, frames[i].timestamp_us) < delta(
                ts,
                (#[trigger] frames[j]).timestamp_us,
            ),
    decreases n,
{
    if n == 1 {
        0
    } else {
        let before = lemma_nearest(frames, ts, n - 1);
        if delta(ts, frames[n - 1].timestamp_us) < delta(ts, frames[before].timestamp_us) {
            n - 1
        } else {
            before
        }
    }
}

/// Giving up on a state is never premature as long as frames arrive in order: no later frame
/// is within its range.
pub proof fn law_drop_is_final(
    frames: Seq<Arc<VideoFrameData>>,
    more: Seq<Arc<VideoFrameData>>,
    ts: u64,
    range: u64,
)
    requires
        all_later(frames, ts, range),
        forall|j: int|
            0 <= j < more.len() ==> frames.last().timestamp_us <= (
            #[trigger] more[j]).timestamp_us,
    ensures
        best(frames + more, ts, range) is None,
{
    let all = frames + more;
    law_best_exists(all, ts, range);
    assert forall|j: int| 0 <= j < all.len() implies !in_range(
        (#[trigger] all[j]).timestamp_us,
        ts,
        range,
    ) by {
        if j < frames.len() {
            assert(all[j] == frames[j]);
        } else {
            assert(all[j] == more[j - frames.len()]);
            assert(frames[frames.len() - 1].timestamp_us > ts + range);
        }
    }
}

/// Nothing exceeds its configured size.
pub open spec fn within_limits(buffer: PullView) -> bool {
    &&& buffer.states.len() <= buffer.config.state_buffer_size
    &&& buffer.queue.len() <= buffer.config.observation_buffer_size
    &&& forall|i: int|
        0 <= i < buffer.buffers.len() ==> (#[trigger] buffer.buffers[i]).len()
            <= buffer.config.video_buffer_size
}

proof fn lemma_choice_in_bounds(buffer: PullView, i: int)
    ensures
        buffer.choice(i) matches Some(k) ==> 0 <= k < buffer.buffers[i].len(),
{
    if buffer.choice(i) is Some {
        let k = choose|k: int|
            is_best(buffer.buffers[i], buffer.head_ts(), buffer.config.search_range_us, k);
        assert(is_best(buffer.buffers[i], buffer.head_ts(), buffer.config.search_range_us, k));
    }
}

/// Memory is bounded, and every state leaves as one observation or as one drop: looking at the
/// states keeps a buffer within its limits, and what left is what was told.
pub proof fn law_run_is_bounded(buffer: PullView)
    requires
        within_limits(buffer),
    ensures
        within_limits(buffer.run().0),
        buffer.run().0.states.len() + buffer.run().1.observations.len()
            + buffer.run().1.drops.len() == buffer.states.len(),
        buffer.run().0.config == buffer.config,
        buffer.run().0.names == buffer.names,
    decreases buffer.states.len(),
{
    if buffer.states.len() > 0 {
        if buffer.all_matched() {
            let next = buffer.after_emit();
            assert forall|i: int| 0 <= i < next.buffers.len() implies (
            #[trigger] next.buffers[i]).len() <= next.config.video_buffer_size by {
                lemma_choice_in_bounds(buffer, i);
                assert(buffer.choice(i) is Some);
                assert(buffer.buffers[i].len() <= buffer.config.video_buffer_size);
            }
            law_run_is_bounded(next);
        } else {
            law_run_is_bounded(buffer.after_drop());
        }
    }
}

/// An empty buffer, such as a new one, is within its limits.
pub proof fn law_empty_is_within_limits(buffer: PullView)
    ensures
        within_limits(buffer.cleared()),
{
}

/// A buffer within its limits stays within them whatever is pushed.
pub proof fn law_limits_are_kept(
    buffer: PullView,
    name: Seq<char>,
    frame: Arc<VideoFrameData>,
    state: StateView,
)
    requires
        within_limits(buffer),
    ensures
        within_limits(buffer.frame_added(name, frame).run().0),
        within_limits(buffer.state_pushed(state).0),
{
    let held = buffer.frame_added(name, frame);
    assert forall|i: int| 0 <= i < held.buffers.len() implies (#[trigger] held.buffers[i]).len()
        <= held.config.video_buffer_size by {
        assert(buffer.buffers[i].len() <= buffer.config.video_buffer_size);
    }
    law_run_is_bounded(held);
    law_run_is_bounded(buffer.state_added(state));
}

} // verus!
