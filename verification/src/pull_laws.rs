//! What comes out of a buffer that is pulled from, told by what went in.

use std::sync::Arc;

use vstd::math::abs;
use vstd::prelude::*;

use crate::field_map::collect;
use crate::pull::{best, is_best, law_best_exists, unique, PullView};
use crate::sync_model::StateView;
use crate::sync_outcomes::shown;
use crate::types::{law_names_find_their_values, paired, VideoFrameData};

verus! {

/// Frame `k` of track `i` lies within the search range of the oldest state.
pub open spec fn reaches(buffer: PullView, i: int, k: int) -> bool {
    &&& 0 <= k < buffer.buffers[i].len()
    &&& abs(buffer.buffers[i][k].timestamp_us - buffer.states[0].timestamp_us)
        < buffer.config.search_range_us
}

/// Track `i` has a frame for the oldest state.
pub open spec fn served(buffer: PullView, i: int) -> bool {
    exists|k: int| reaches(buffer, i, k)
}

proof fn lemma_choice(buffer: PullView, i: int)
    requires
        buffer.states.len() > 0,
        0 <= i < buffer.buffers.len(),
    ensures
        buffer.choice(i) is Some <==> served(buffer, i),
        buffer.choice(i) matches Some(k) ==> {
            let at = buffer.buffers[i][k].timestamp_us;
            let ts = buffer.states[0].timestamp_us;
            &&& reaches(buffer, i, k)
            &&& forall|j: int|
                0 <= j < buffer.buffers[i].len() ==> abs(at - ts) <= abs(
                    (#[trigger] buffer.buffers[i][j]).timestamp_us - ts,
                )
            &&& forall|j: int|
                0 <= j < k ==> abs(at - ts) < abs(
                    (#[trigger] buffer.buffers[i][j]).timestamp_us - ts,
                )
        },
{
    let frames = buffer.buffers[i];
    let ts = buffer.head_ts();
    let range = buffer.config.search_range_us;
    law_best_exists(frames, ts, range);
    if let Some(k) = buffer.choice(i) {
        assert(is_best(frames, ts, range, k)) by {
            assert(exists|k: int| is_best(frames, ts, range, k));
        }
        assert(reaches(buffer, i, k));
    }
    if served(buffer, i) {
        let k = choose|k: int| reaches(buffer, i, k);
        assert(crate::sync_model::in_range(frames[k].timestamp_us, ts, range));
    }
}

/// Every name shows its own track: the frame that an observation has under the name of a track is
/// a frame of that very track, within the search range of the state, with none nearer and none
/// before it as near.
pub proof fn law_each_name_shows_its_track(buffer: PullView, i: int)
    requires
        buffer.states.len() > 0,
        buffer.names.len() == buffer.buffers.len(),
        shown(buffer.names, i),
        served(buffer, i),
    ensures
        ({
            let ts = buffer.states[0].timestamp_us;
            let frames = buffer.head_observation().frames;
            let frame = frames[buffer.names[i]];
            &&& frames.contains_key(buffer.names[i])
            &&& exists|k: int| #[trigger]
                reaches(buffer, i, k) && {
                    &&& frame == buffer.buffers[i][k]
                    &&& forall|j: int|
                        0 <= j < buffer.buffers[i].len() ==> abs(frame.timestamp_us - ts) <= abs(
                            (#[trigger] buffer.buffers[i][j]).timestamp_us - ts,
                        )
                    &&& forall|j: int|
                        0 <= j < k ==> abs(frame.timestamp_us - ts) < abs(
                            (#[trigger] buffer.buffers[i][j]).timestamp_us - ts,
                        )
                }
        }),
{
    lemma_choice(buffer, i);
    law_names_find_their_values(buffer.names, buffer.head_frames(), buffer.names[i]);
    let k = buffer.choice(i)->0;
    assert(buffer.head_observation().frames[buffer.names[i]] == buffer.head_frames()[i]);
    assert(reaches(buffer, i, k));
    assert(buffer.head_frames()[i] == buffer.buffers[i][k]);
}

/// The observation of the oldest state has its time, its values by field and one frame for every
/// name.
pub proof fn law_observation_is_of_its_state(buffer: PullView, k: Seq<char>)
    requires
        buffer.states.len() > 0,
        buffer.names.len() == buffer.buffers.len(),
        buffer.fields.len() <= buffer.states[0].values.len(),
    ensures
        buffer.head_observation().timestamp_us == buffer.states[0].timestamp_us,
        buffer.head_observation().frames.contains_key(k) <==> buffer.names.contains(k),
        buffer.head_observation().state.contains_key(k) <==> buffer.fields.contains(k),
        forall|j: int|
            shown(buffer.fields, j) && buffer.fields[j] == k
                ==> buffer.head_observation().state[k] == #[trigger] buffer.states[0].values[j],
        buffer.head_fields() == buffer.head_observation().state,
{
    law_names_find_their_values(buffer.names, buffer.head_frames(), k);
    law_names_find_their_values(buffer.fields, buffer.states[0].values, k);
    if buffer.names.contains(k) {
        let j = choose|j: int| 0 <= j < buffer.names.len() && buffer.names[j] == k;
        assert(buffer.names[j] == k);
    }
    if buffer.fields.contains(k) {
        let j = choose|j: int| 0 <= j < buffer.fields.len() && buffer.fields[j] == k;
        assert(buffer.fields[j] == k);
    }
}

/// The oldest state takes frame `k` of track `i`, and `left` is what is behind it.
pub open spec fn used_up(
    buffer: PullView,
    left: Seq<Arc<VideoFrameData>>,
    i: int,
    k: int,
) -> bool {
    &&& reaches(buffer, i, k)
    &&& buffer.head_frames()[i] == buffer.buffers[i][k]
    &&& left == buffer.buffers[i].skip(k + 1)
}

/// The oldest state is emitted as soon as every track has a frame for it: it is told first, it
/// joins the observations that wait, of which only the newest stay.
pub proof fn law_served_state_is_emitted(buffer: PullView)
    requires
        buffer.states.len() > 0,
        forall|i: int| 0 <= i < buffer.buffers.len() ==> #[trigger] served(buffer, i),
    ensures
        ({
            let next = buffer.after_emit();
            let (rest, out) = buffer.run();
            let waiting = buffer.queue.push(buffer.head_observation());
            let room = buffer.config.observation_buffer_size as int;
            &&& out.observations == seq![buffer.head_observation()] + next.run().1.observations
            &&& out.drops == next.run().1.drops
            &&& rest == next.run().0
            &&& next.states == buffer.states.skip(1)
            &&& next.names == buffer.names
            &&& next.fields == buffer.fields
            &&& next.config == buffer.config
            &&& waiting.len() <= room ==> next.queue == waiting
            &&& waiting.len() > room ==> next.queue == waiting.skip(waiting.len() - room)
            &&& next.buffers.len() == buffer.buffers.len()
        }),
{
    let next = buffer.after_emit();
    assert forall|i: int| 0 <= i < buffer.buffers.len() implies #[trigger] buffer.choice(
        i,
    ) is Some by {
        assert(served(buffer, i));
        lemma_choice(buffer, i);
    }
    assert(buffer.all_matched());
    let waiting = buffer.queue.push(buffer.head_observation());
    assert(waiting.skip(0) =~= waiting);
}

/// Emitting a state takes its frame and all before it from every track.
pub proof fn law_emit_uses_frames_up(buffer: PullView, i: int)
    requires
        buffer.states.len() > 0,
        0 <= i < buffer.buffers.len(),
        served(buffer, i),
    ensures
        exists|k: int| #[trigger] used_up(buffer, buffer.after_emit().buffers[i], i, k),
{
    lemma_choice(buffer, i);
    assert(used_up(buffer, buffer.after_emit().buffers[i], i, buffer.choice(i)->0));
}

/// The first track without a frame for the oldest state decides over it: where that track has
/// frames and all of them lie past the state by more than the search range, the state is dropped
/// and nothing else changes; otherwise it waits.
pub proof fn law_unserved_state_is_decided(buffer: PullView, i: int)
    requires
        buffer.states.len() > 0,
        0 <= i < buffer.buffers.len(),
        !served(buffer, i),
        forall|j: int| 0 <= j < i ==> #[trigger] served(buffer, j),
    ensures
        ({
            let (rest, out) = buffer.run();
            let frames = buffer.buffers[i];
            let end = buffer.states[0].timestamp_us + buffer.config.search_range_us;
            let next = PullView { states: buffer.states.skip(1), ..buffer };
            if frames.len() > 0 && forall|j: int|
                0 <= j < frames.len() ==> (#[trigger] frames[j]).timestamp_us > end {
                &&& rest == next.run().0
                &&& out.observations == next.run().1.observations
                &&& out.drops == seq![collect(paired(buffer.fields, buffer.states[0].values))]
                    + next.run().1.drops
            } else {
                &&& rest == buffer
                &&& out.observations.len() == 0
                &&& out.drops.len() == 0
            }
        }),
{
    lemma_choice(buffer, i);
    assert forall|j: int| 0 <= j < i implies #[trigger] buffer.choice(j) is Some by {
        assert(served(buffer, j));
        lemma_choice(buffer, j);
    }
    assert(buffer.first_unmatched(i));
    assert(!buffer.all_matched());
    let k = choose|k: int| buffer.first_unmatched(k);
    assert(buffer.first_unmatched(k));
    assert(k == i) by {
        if k < i {
            assert(buffer.choice(k) is Some);
        } else if i < k {
            assert(buffer.choice(i) is Some);
        }
    }
}

/// Without states there is nothing to do.
pub proof fn law_no_state_no_output(buffer: PullView)
    requires
        buffer.states.len() == 0,
    ensures
        buffer.run().0 == buffer,
        buffer.run().1.observations.len() == 0,
        buffer.run().1.drops.len() == 0,
{
}

/// What every observation of a look at the states has under the name of track `i`.
pub open spec fn drawn_from(
    buffer: PullView,
    i: int,
    observations: Seq<crate::types::ObservationView>,
) -> bool {
    forall|m: int|
        0 <= m < observations.len() ==> {
            let frames = (#[trigger] observations[m]).frames;
            let frame = frames[buffer.names[i]];
            &&& frames.contains_key(buffer.names[i])
            &&& buffer.buffers[i].contains(frame)
            &&& abs(frame.timestamp_us - observations[m].timestamp_us)
                < buffer.config.search_range_us
        }
}

/// Every observation shows under the name of a track a frame that this track held, within the
/// search range of the observation.
pub proof fn law_observations_draw_from_their_tracks(buffer: PullView, i: int)
    requires
        buffer.names.len() == buffer.buffers.len(),
        shown(buffer.names, i),
    ensures
        drawn_from(buffer, i, buffer.run().1.observations),
    decreases buffer.states.len(),
{
    if buffer.states.len() > 0 {
        if buffer.all_matched() {
            assert forall|j: int| 0 <= j < buffer.buffers.len() implies #[trigger] served(
                buffer,
                j,
            ) by {
                assert(buffer.choice(j) is Some);
                lemma_choice(buffer, j);
            }
            law_served_state_is_emitted(buffer);
            assert(served(buffer, i));
            law_each_name_shows_its_track(buffer, i);
            law_emit_uses_frames_up(buffer, i);
            let next = buffer.after_emit();
            let out = buffer.run().1.observations;
            law_observations_draw_from_their_tracks(next, i);
            let frames = buffer.buffers[i];
            let k = choose|k: int| #[trigger] used_up(buffer, next.buffers[i], i, k);
            assert forall|m: int| 0 <= m < out.len() implies {
                let frames = (#[trigger] out[m]).frames;
                let frame = frames[buffer.names[i]];
                &&& frames.contains_key(buffer.names[i])
                &&& buffer.buffers[i].contains(frame)
                &&& abs(frame.timestamp_us - out[m].timestamp_us) < buffer.config.search_range_us
            } by {
                let frame = out[m].frames[buffer.names[i]];
                if m == 0 {
                    assert(out[0] == buffer.head_observation());
                } else {
                    assert(out[m] == next.run().1.observations[m - 1]);
                    let j = choose|j: int|
                        0 <= j < next.buffers[i].len() && next.buffers[i][j] == frame;
                    assert(frames[j + k + 1] == frame);
                }
            }
        } else {
            law_observations_draw_from_their_tracks(buffer.after_drop(), i);
        }
    }
}

/// A frame that arrives joins the end of the tracks of its name, where only the newest stay, and
/// no other track.
pub proof fn law_frame_joins_its_track(
    buffer: PullView,
    name: Seq<char>,
    frame: Arc<VideoFrameData>,
    i: int,
)
    requires
        0 <= i < buffer.buffers.len(),
    ensures
        ({
            let after = buffer.frame_added(name, frame);
            let all = buffer.buffers[i].push(frame);
            let room = buffer.config.video_buffer_size as int;
            &&& after.buffers.len() == buffer.buffers.len()
            &&& buffer.names[i] == name && all.len() <= room ==> after.buffers[i] == all
            &&& buffer.names[i] == name && all.len() > room ==> after.buffers[i] == all.skip(
                all.len() - room,
            )
            &&& buffer.names[i] != name ==> after.buffers[i] == buffer.buffers[i]
            &&& after == (PullView { buffers: after.buffers, ..buffer })
        }),
{
    let all = buffer.buffers[i].push(frame);
    assert(all.skip(0) =~= all);
}

/// A state that arrives joins the end of the line; the oldest ones give way and are told first,
/// in order.
pub proof fn law_state_joins_the_line(buffer: PullView, state: StateView)
    ensures
        ({
            let (rest, out) = buffer.state_pushed(state);
            let all = buffer.states.push(state);
            let room = buffer.config.state_buffer_size as int;
            let lost = if all.len() > room {
                all.len() - room
            } else {
                0
            };
            let held = PullView { states: all.skip(lost), ..buffer };
            &&& rest == held.run().0
            &&& out.observations == held.run().1.observations
            &&& out.drops.len() == lost + held.run().1.drops.len()
            &&& forall|m: int|
                0 <= m < lost ==> #[trigger] out.drops[m] == collect(
                    paired(buffer.fields, all[m].values),
                )
            &&& out.drops.skip(lost) == held.run().1.drops
        }),
{
    let (rest, out) = buffer.state_pushed(state);
    let all = buffer.states.push(state);
    let room = buffer.config.state_buffer_size as int;
    let lost = if all.len() > room {
        all.len() - room
    } else {
        0
    };
    let held = PullView { states: all.skip(lost), ..buffer };
    assert(out.drops.skip(lost) =~= held.run().1.drops);
}

/// A cleared buffer holds nothing and is set up as before.
pub proof fn law_clear_empties(buffer: PullView)
    ensures
        ({
            let after = buffer.cleared();
            &&& after.states.len() == 0
            &&& after.queue.len() == 0
            &&& after.names == buffer.names
            &&& after.fields == buffer.fields
            &&& after.config == buffer.config
            &&& after.buffers.len() == buffer.buffers.len()
            &&& forall|i: int|
                0 <= i < buffer.buffers.len() ==> (#[trigger] after.buffers[i]).len() == 0
        }),
{
}

/// Repeated names count once, the others stay as they are and in their order.
pub proof fn law_names_count_once(names: Seq<Seq<char>>, k: Seq<char>)
    ensures
        unique(names).no_duplicates(),
        unique(names).contains(k) <==> names.contains(k),
        names.no_duplicates() ==> unique(names) == names,
        unique(names.push(k)) == if names.contains(k) {
            unique(names)
        } else {
            unique(names).push(k)
        },
    decreases names.len(),
{
    assert(names.push(k).drop_last() =~= names);
    if names.len() > 0 {
        let init = names.drop_last();
        let last = names.last();
        law_names_count_once(init, k);
        law_names_count_once(init, last);
        let before = unique(init);
        if names.contains(k) {
            let j = choose|j: int| 0 <= j < names.len() && names[j] == k;
            if j < init.len() {
                assert(init[j] == k);
                let p = choose|p: int| 0 <= p < before.len() && before[p] == k;
                assert(before.push(last)[p] == k);
            } else {
                assert(before.push(last)[before.len() as int] == k);
            }
        }
        if unique(names).contains(k) {
            let p = choose|p: int| 0 <= p < unique(names).len() && unique(names)[p] == k;
            if p < before.len() {
                assert(before[p] == k);
                let j = choose|j: int| 0 <= j < init.len() && init[j] == k;
                assert(names[j] == k);
            } else {
                assert(names[names.len() - 1] == k);
            }
        }
        if names.no_duplicates() {
            assert(init.no_duplicates()) by {
                assert forall|a: int, b: int|
                    0 <= a < init.len() && 0 <= b < init.len() && a != b implies init[a]
                    != init[b] by {
                    assert(names[a] != names[b]);
                }
            }
            if init.contains(last) {
                let j = choose|j: int| 0 <= j < init.len() && init[j] == last;
                assert(names[j] == names[names.len() - 1]);
            }
            assert(init.push(last) =~= names);
        }
    }
}

} // verus!
