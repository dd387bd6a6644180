//! What comes out of a synchronisation buffer, told by what went in.

use std::sync::Arc;

use vstd::math::abs;
use vstd::prelude::*;

use crate::field_map::collect;
use crate::sync_laws::{
    ascending, cursors_valid, law_match_exists, law_match_is_nearest, lemma_settled,
    tracks_in_order,
};
use crate::sync_model::{
    claimed, delta, first_true, free, is_last_named, lemma_first_true_none, settled, worst_delta,
    OutputView, StateView, SyncEvent, SyncView, TrackView,
};
use crate::types::{law_names_find_their_values, paired, VideoFrameData};

verus! {

/// Frame `k` of track `i` suits the oldest state: it lies within the search range, and no later
/// state lies nearer to it.
pub open spec fn suits(buffer: SyncView, i: int, k: int) -> bool {
    let at = buffer.tracks[i].frames[k].timestamp_us;
    let apart = abs(at - buffer.states[0].timestamp_us);
    &&& 0 <= k < buffer.tracks[i].frames.len()
    &&& apart < buffer.config.search_range_us
    &&& forall|m: int|
        0 < m < buffer.states.len() ==> abs(at - (#[trigger] buffer.states[m]).timestamp_us)
            >= apart
}

/// No frame of track `i` suits the oldest state.
pub open spec fn unsuited(buffer: SyncView, i: int) -> bool {
    forall|k: int| !suits(buffer, i, k)
}

/// Track `i` has a frame for the oldest state: one that suits it or, where stale frames are
/// reused, one that it emitted before.
pub open spec fn served(buffer: SyncView, i: int) -> bool {
    ||| exists|k: int| suits(buffer, i, k)
    ||| buffer.config.reuse_stale_frames && buffer.tracks[i].last_emitted is Some
}

/// Track `i` has no frame for the oldest state, and its newest frame lies past the state by the
/// search range or more.
pub open spec fn too_late(buffer: SyncView, i: int) -> bool {
    let frames = buffer.tracks[i].frames;
    let end = buffer.states[0].timestamp_us + buffer.config.search_range_us;
    &&& !served(buffer, i)
    &&& frames.len() > 0
    &&& frames.last().timestamp_us >= end || frames.last().timestamp_us == u64::MAX && end
        > u64::MAX
}

/// Of several tracks of one name the last is the one that an observation shows.
pub open spec fn shown(names: Seq<Seq<char>>, i: int) -> bool {
    &&& 0 <= i < names.len()
    &&& forall|j: int| i < j < names.len() ==> #[trigger] names[j] != names[i]
}

proof fn lemma_suits(buffer: SyncView, i: int, k: int)
    requires
        buffer.states.len() > 0,
        0 <= k < buffer.tracks[i].frames.len(),
    ensures
        suits(buffer, i, k) <==> free(
            buffer.tracks[i].frames[k].timestamp_us,
            buffer.head_ts(),
            buffer.later(),
            buffer.config.search_range_us,
        ),
{
    let at = buffer.tracks[i].frames[k].timestamp_us;
    let ts = buffer.head_ts();
    let later = buffer.later();
    if claimed(at, ts, later) {
        let m = choose|m: int|
            0 <= m < later.len() && delta((#[trigger] later[m]).timestamp_us, at) < delta(ts, at);
        assert(later[m] == buffer.states[m + 1]);
    } else {
        assert forall|m: int| 0 < m < buffer.states.len() implies abs(
            at - (#[trigger] buffer.states[m]).timestamp_us,
        ) >= abs(at - ts) by {
            assert(later[m - 1] == buffer.states[m]);
        }
    }
}

proof fn lemma_fresh(buffer: SyncView, i: int)
    requires
        buffer.states.len() > 0,
        cursors_valid(buffer),
        tracks_in_order(buffer),
        0 <= i < buffer.tracks.len(),
    ensures
        buffer.tracks[i].fresh(buffer.head_ts(), buffer.later(), buffer.config) <==> exists|k: int|
            suits(buffer, i, k),
{
    let track = buffer.tracks[i];
    let range = buffer.config.search_range_us;
    law_match_exists(track, buffer.head_ts(), buffer.later(), range);
    if exists|k: int| suits(buffer, i, k) {
        let k = choose|k: int| suits(buffer, i, k);
        lemma_suits(buffer, i, k);
        assert(free(track.frames[k].timestamp_us, buffer.head_ts(), buffer.later(), range));
    }
    if track.fresh(buffer.head_ts(), buffer.later(), buffer.config) {
        let k = choose|k: int|
            0 <= k < track.frames.len() && free(
                (#[trigger] track.frames[k]).timestamp_us,
                buffer.head_ts(),
                buffer.later(),
                range,
            );
        lemma_suits(buffer, i, k);
    }
}

/// Whatever order frames came in, the frame that the oldest state takes suits it.
pub proof fn law_taken_frame_suits(buffer: SyncView, i: int, k: int)
    requires
        buffer.states.len() > 0,
        cursors_valid(buffer),
        0 <= i < buffer.tracks.len(),
        buffer.tracks[i].found(
            buffer.head_ts(),
            buffer.later(),
            buffer.config.search_range_us,
        ) == Some(k),
    ensures
        suits(buffer, i, k),
        buffer.head_frames()[i] == buffer.tracks[i].frames[k],
{
    lemma_settled(buffer.tracks[i].frames, buffer.tracks[i].cursor, buffer.head_ts());
    lemma_suits(buffer, i, k);
}

/// Which of the three fates the oldest state meets, by what each track has for it.
proof fn lemma_verdicts(buffer: SyncView)
    requires
        buffer.states.len() > 0,
        cursors_valid(buffer),
        tracks_in_order(buffer),
    ensures
        forall|i: int|
            0 <= i < buffer.tracks.len() ==> {
                &&& #[trigger] buffer.hopeless_tracks()[i] <==> too_late(buffer, i)
                &&& buffer.blocked_tracks()[i] <==> !served(buffer, i) && !too_late(buffer, i)
            },
        first_true(buffer.hopeless_tracks()) is Some <==> exists|i: int|
            0 <= i < buffer.tracks.len() && too_late(buffer, i),
        first_true(buffer.hopeless_tracks()) is None && first_true(buffer.blocked_tracks()) is None
            <==> forall|i: int| 0 <= i < buffer.tracks.len() ==> served(buffer, i),
{
    let hopeless = buffer.hopeless_tracks();
    let blocked = buffer.blocked_tracks();
    assert forall|i: int| 0 <= i < buffer.tracks.len() implies {
        &&& #[trigger] hopeless[i] <==> too_late(buffer, i)
        &&& blocked[i] <==> !served(buffer, i) && !too_late(buffer, i)
    } by {
        lemma_fresh(buffer, i);
    }
    lemma_first_true_none(hopeless);
    lemma_first_true_none(blocked);
    if exists|i: int| 0 <= i < buffer.tracks.len() && too_late(buffer, i) {
        let i = choose|i: int| 0 <= i < buffer.tracks.len() && too_late(buffer, i);
        assert(hopeless[i]);
    }
    if first_true(hopeless) is Some {
        let i = choose|i: int| 0 <= i < hopeless.len() && #[trigger] hopeless[i];
        assert(too_late(buffer, i));
    }
    if first_true(hopeless) is None && first_true(blocked) is None {
        assert forall|i: int| 0 <= i < buffer.tracks.len() implies served(buffer, i) by {
            assert(!hopeless[i]);
            assert(!blocked[i]);
        }
    }
    if forall|i: int| 0 <= i < buffer.tracks.len() ==> served(buffer, i) {
        assert forall|i: int| 0 <= i < hopeless.len() implies !#[trigger] hopeless[i] by {
            assert(served(buffer, i));
        }
        assert forall|i: int| 0 <= i < blocked.len() implies !#[trigger] blocked[i] by {
            assert(served(buffer, i));
            assert(!hopeless[i]);
        }
    }
}

/// The oldest state is emitted as soon as every track has a frame for it, before all others, which
/// are then looked at in turn.
pub proof fn law_served_state_is_emitted(buffer: SyncView)
    requires
        buffer.states.len() > 0,
        cursors_valid(buffer),
        tracks_in_order(buffer),
        forall|i: int| 0 <= i < buffer.tracks.len() ==> served(buffer, i),
    ensures
        ({
            let (rest, out) = buffer.run();
            &&& out.observations.len() > 0
            &&& out.observations[0].timestamp_us == buffer.states[0].timestamp_us
            &&& out.observations[0].state == collect(
                paired(buffer.fields, buffer.states[0].values),
            )
            &&& out.observations == seq![buffer.head_observation()]
                + buffer.after_emit().run().1.observations
            &&& out.drops == buffer.after_emit().run().1.drops
            &&& out.events.len() == 1 + buffer.after_emit().run().1.events.len()
            &&& out.events.skip(1) == buffer.after_emit().run().1.events
            &&& rest == buffer.after_emit().run().0
            &&& rest.states.len() < buffer.states.len()
        }),
{
    lemma_verdicts(buffer);
    let next = buffer.after_emit();
    let out = buffer.run().1;
    crate::sync_laws::law_states_are_conserved(next);
    assert(out.drops =~= next.run().1.drops);
    assert(out.events.skip(1) =~= next.run().1.events);
}

/// The oldest state is given up as soon as some track is too late for it, and its frames stay for
/// the next one.
pub proof fn law_late_state_is_dropped(buffer: SyncView)
    requires
        buffer.states.len() > 0,
        cursors_valid(buffer),
        tracks_in_order(buffer),
        exists|i: int| 0 <= i < buffer.tracks.len() && too_late(buffer, i),
    ensures
        ({
            let (rest, out) = buffer.run();
            &&& rest.states.len() < buffer.states.len()
            &&& exists|next: SyncView| #[trigger] dropped_only(buffer, next) && {
                &&& rest == next.run().0
                &&& out.observations == next.run().1.observations
                &&& out.drops == seq![collect(paired(buffer.fields, buffer.states[0].values))]
                    + next.run().1.drops
                &&& out.events == seq![SyncEvent::StatesDropped { count: 1 }]
                    + next.run().1.events
            }
        }),
{
    lemma_verdicts(buffer);
    let i = first_true(buffer.hopeless_tracks())->0;
    let next = buffer.after_drop(i);
    crate::sync_laws::law_states_are_conserved(next);
    assert(dropped_only(buffer, next));
    assert(buffer.run().1.observations =~= next.run().1.observations);
    assert(buffer.run().1.drops =~= seq![collect(paired(buffer.fields, buffer.states[0].values))]
        + next.run().1.drops);
    assert(buffer.run().1.events =~= seq![SyncEvent::StatesDropped { count: 1 }]
        + next.run().1.events);
}

/// `next` is the buffer without its oldest state, with everything else that can be seen of it.
pub open spec fn dropped_only(buffer: SyncView, next: SyncView) -> bool {
    &&& next.states == buffer.states.skip(1)
    &&& next.names == buffer.names
    &&& next.fields == buffer.fields
    &&& next.config == buffer.config
    &&& next.tracks.len() == buffer.tracks.len()
    &&& forall|j: int|
        0 <= j < buffer.tracks.len() ==> {
            &&& (#[trigger] next.tracks[j]).frames == buffer.tracks[j].frames
            &&& next.tracks[j].last_emitted == buffer.tracks[j].last_emitted
        }
}

/// While some track has no frame for the oldest state and none is too late for it, nothing leaves
/// the buffer, and the first track without a frame is told and remembered.
pub proof fn law_unserved_state_waits(buffer: SyncView, i: int)
    requires
        buffer.states.len() > 0,
        cursors_valid(buffer),
        tracks_in_order(buffer),
        forall|j: int| 0 <= j < buffer.tracks.len() ==> !too_late(buffer, j),
        0 <= i < buffer.tracks.len(),
        !served(buffer, i),
        forall|j: int| 0 <= j < i ==> served(buffer, j),
    ensures
        ({
            let (rest, out) = buffer.run();
            &&& out.observations.len() == 0
            &&& out.drops.len() == 0
            &&& out.evicted.len() == 0
            &&& out.events == seq![SyncEvent::Blocked { track: i as usize }]
            &&& rest.states == buffer.states
            &&& rest.blocker == Some(i)
            &&& rest.tracks.len() == buffer.tracks.len()
            &&& forall|j: int|
                0 <= j < buffer.tracks.len() ==> {
                    &&& (#[trigger] rest.tracks[j]).frames == buffer.tracks[j].frames
                    &&& rest.tracks[j].last_emitted == buffer.tracks[j].last_emitted
                }
        }),
{
    lemma_verdicts(buffer);
    let blocked = buffer.blocked_tracks();
    assert(!too_late(buffer, i));
    assert(buffer.hopeless_tracks()[i] <==> too_late(buffer, i));
    assert(blocked[i]);
    assert forall|j: int| 0 <= j < i implies !#[trigger] blocked[j] by {
        assert(buffer.hopeless_tracks()[j] <==> too_late(buffer, j));
        assert(served(buffer, j));
    }
    crate::sync_model::lemma_first_true_is(blocked, i);
    assert(first_true(buffer.hopeless_tracks()) is None) by {
        if first_true(buffer.hopeless_tracks()) is Some {
            let j = choose|j: int| 0 <= j < buffer.tracks.len() && too_late(buffer, j);
            assert(!too_late(buffer, j));
        }
    }
}

/// Without states there is nothing to do.
pub proof fn law_no_state_no_output(buffer: SyncView)
    requires
        buffer.states.len() == 0,
    ensures
        buffer.run().1 == OutputView::empty(),
        buffer.run().1.observations.len() == 0,
        buffer.run().1.drops.len() == 0,
        buffer.run().1.evicted.len() == 0,
        buffer.run().1.events.len() == 0,
        buffer.run().0.tracks == buffer.tracks,
        buffer.run().0.blocker is None,
{
}

/// An observation maps the name of every track to the frame that is matched on that very track; of
/// two tracks of one name the later is shown.
pub proof fn law_name_maps_to_its_frame(buffer: SyncView, i: int)
    requires
        buffer.states.len() > 0,
        buffer.names.len() == buffer.tracks.len(),
        shown(buffer.names, i),
    ensures
        buffer.head_observation().frames.contains_key(buffer.names[i]),
        buffer.head_observation().frames[buffer.names[i]] == buffer.head_frames()[i],
        buffer.head_frames()[i] == buffer.tracks[i].frame_for(
            buffer.head_ts(),
            buffer.later(),
            buffer.config,
        ),
{
    law_names_find_their_values(buffer.names, buffer.head_frames(), buffer.names[i]);
    assert(buffer.head_frames()[i] == buffer.head_observation().frames[buffer.names[i]]);
}

/// Every name shows its own track: the frame that an observation has under the name of a track is
/// the frame that was matched on that very track. It is the nearest of the frames that suit the
/// state, the earlier of two equally near ones, or the track's last emitted frame where none
/// suits.
pub proof fn law_each_name_shows_its_track(buffer: SyncView, i: int)
    requires
        buffer.states.len() > 0,
        cursors_valid(buffer),
        tracks_in_order(buffer),
        buffer.names.len() == buffer.tracks.len(),
        shown(buffer.names, i),
        served(buffer, i),
    ensures
        ({
            let track = buffer.tracks[i];
            let ts = buffer.states[0].timestamp_us;
            let frames = buffer.head_observation().frames;
            let frame = frames[buffer.names[i]];
            &&& frames.contains_key(buffer.names[i])
            &&& frame == buffer.head_frames()[i]
            &&& if exists|k: int| suits(buffer, i, k) {
                &&& exists|k: int| suits(buffer, i, k) && frame == #[trigger] track.frames[k]
                &&& forall|j: int|
                    suits(buffer, i, j) ==> {
                        let other = #[trigger] track.frames[j];
                        &&& abs(frame.timestamp_us - ts) <= abs(other.timestamp_us - ts)
                        &&& abs(frame.timestamp_us - ts) == abs(other.timestamp_us - ts)
                            ==> frame.timestamp_us <= other.timestamp_us
                    }
            } else {
                track.last_emitted == Some(frame)
            }
        }),
{
    let track = buffer.tracks[i];
    let ts = buffer.head_ts();
    let later = buffer.later();
    let range = buffer.config.search_range_us;
    law_name_maps_to_its_frame(buffer, i);
    lemma_fresh(buffer, i);
    let frame = buffer.head_frames()[i];
    if track.fresh(ts, later, buffer.config) {
        let k = track.found(ts, later, range)->0;
        law_match_is_nearest(track, ts, later, range, k);
        lemma_settled(track.frames, track.cursor, ts);
        lemma_suits(buffer, i, k);
        assert(frame == track.frames[k]);
        assert(suits(buffer, i, k) && frame == track.frames[k]);
        assert forall|j: int| suits(buffer, i, j) implies {
            let other = #[trigger] track.frames[j];
            &&& abs(frame.timestamp_us - ts) <= abs(other.timestamp_us - ts)
            &&& abs(frame.timestamp_us - ts) == abs(other.timestamp_us - ts)
                ==> frame.timestamp_us <= other.timestamp_us
        } by {
            lemma_suits(buffer, i, j);
            assert(free(track.frames[j].timestamp_us, ts, later, range));
            let at = settled(track.frames, track.cursor, ts);
            if j <= at {
                assert(track.frames[j].timestamp_us <= track.frames[at].timestamp_us);
                if k == at + 1 && free(track.frames[at].timestamp_us, ts, later, range) {
                    assert(delta(ts, track.frames[k].timestamp_us) < delta(
                        ts,
                        track.frames[at].timestamp_us,
                    ));
                }
                if k == at + 1 && !free(track.frames[at].timestamp_us, ts, later, range) {
                    lemma_free_reaches(track, ts, later, range, j, at);
                }
            } else {
                assert(track.frames[k].timestamp_us <= track.frames[at + 1].timestamp_us);
                assert(track.frames[at + 1].timestamp_us <= track.frames[j].timestamp_us);
            }
        }
    }
}

/// A frame between one that a state may have and the state itself is one that it may have too.
proof fn lemma_free_reaches(
    track: TrackView,
    ts: u64,
    later: Seq<StateView>,
    range: u64,
    j: int,
    at: int,
)
    requires
        0 <= j <= at < track.frames.len(),
        track.frames[j].timestamp_us <= track.frames[at].timestamp_us,
        at == 0 || track.frames[at].timestamp_us <= ts,
        free(track.frames[j].timestamp_us, ts, later, range),
    ensures
        free(track.frames[at].timestamp_us, ts, later, range),
{
    let near = track.frames[at].timestamp_us;
    let far = track.frames[j].timestamp_us;
    if j < at && claimed(near, ts, later) {
        let m = choose|m: int|
            0 <= m < later.len() && delta((#[trigger] later[m]).timestamp_us, near) < delta(
                ts,
                near,
            );
        assert(delta(later[m].timestamp_us, far) < delta(ts, far));
    }
}

/// The observation of the oldest state has its time, its values by field and one frame for every
/// name.
pub proof fn law_observation_is_of_its_state(buffer: SyncView, k: Seq<char>)
    requires
        buffer.states.len() > 0,
        buffer.names.len() == buffer.tracks.len(),
        buffer.fields.len() <= buffer.states[0].values.len(),
    ensures
        buffer.head_observation().timestamp_us == buffer.states[0].timestamp_us,
        buffer.head_observation().frames.contains_key(k) <==> buffer.names.contains(k),
        buffer.head_observation().state.contains_key(k) <==> buffer.fields.contains(k),
        forall|j: int|
            shown(buffer.fields, j) && buffer.fields[j] == k
                ==> buffer.head_observation().state[k] == #[trigger] buffer.states[0].values[j],
{
    crate::sync_laws::law_observation_is_complete(buffer);
    assert(buffer.head_observation().frames.dom().contains(k) <==> buffer.names.contains(k));
    assert(buffer.head_observation().state.dom().contains(k) <==> buffer.fields.contains(k));
    law_names_find_their_values(buffer.fields, buffer.states[0].values, k);
}

/// An emitted observation reports how far its farthest frame lies from its state, and whether
/// some track had no frame that suits and reused its last one.
pub proof fn law_observation_is_measured(buffer: SyncView)
    requires
        buffer.states.len() > 0,
        cursors_valid(buffer),
        tracks_in_order(buffer),
        forall|i: int| 0 <= i < buffer.tracks.len() ==> served(buffer, i),
    ensures
        ({
            let out = buffer.run().1;
            let ts = buffer.states[0].timestamp_us;
            &&& out.events.len() > 0
            &&& out.events[0] matches SyncEvent::Observed { worst_delta_us, stale }
            &&& forall|i: int|
                0 <= i < buffer.tracks.len() ==> abs(
                    (#[trigger] buffer.head_frames()[i]).timestamp_us - ts,
                ) <= worst_delta_us
            &&& buffer.tracks.len() == 0 ==> worst_delta_us == 0
            &&& buffer.tracks.len() > 0 ==> exists|i: int|
                0 <= i < buffer.tracks.len() && abs(
                    (#[trigger] buffer.head_frames()[i]).timestamp_us - ts,
                ) == worst_delta_us
            &&& stale <==> exists|i: int|
                0 <= i < buffer.tracks.len() && #[trigger] unsuited(buffer, i)
        }),
{
    lemma_verdicts(buffer);
    let ts = buffer.head_ts();
    let n = buffer.tracks.len() as int;
    let frames = buffer.head_frames();
    lemma_worst(frames, ts, n);
    assert forall|i: int| 0 <= i < n implies abs((#[trigger] frames[i]).timestamp_us - ts)
        <= worst_delta(frames, ts, n) by {
        assert(delta(ts, frames[i].timestamp_us) <= worst_delta(frames, ts, n));
    }
    if n > 0 {
        let i = choose|i: int|
            0 <= i < n && delta(ts, (#[trigger] frames[i]).timestamp_us) == worst_delta(
                frames,
                ts,
                n,
            );
        assert(abs(frames[i].timestamp_us - ts) == worst_delta(frames, ts, n));
    }
    assert forall|i: int| 0 <= i < n implies ((#[trigger] buffer.tracks[i]).stale(
        ts,
        buffer.later(),
        buffer.config,
    ) <==> unsuited(buffer, i)) by {
        lemma_fresh(buffer, i);
        assert(served(buffer, i));
    }
    assert(buffer.head_is_stale() <==> exists|i: int|
        0 <= i < n && #[trigger] unsuited(buffer, i)) by {
        if buffer.head_is_stale() {
            let i = choose|i: int|
                0 <= i < n && (#[trigger] buffer.tracks[i]).stale(
                    ts,
                    buffer.later(),
                    buffer.config,
                );
            assert(unsuited(buffer, i));
        }
        if exists|i: int|
            0 <= i < n && #[trigger] unsuited(buffer, i) {
            let i = choose|i: int|
                0 <= i < n && #[trigger] unsuited(buffer, i);
            assert(buffer.tracks[i].stale(ts, buffer.later(), buffer.config));
        }
    }
    let out = buffer.run().1;
    assert(out.events == buffer.emit_output().events + buffer.after_emit().run().1.events);
    assert(out.events[0] == buffer.emit_output().events[0]);
}

proof fn lemma_worst(frames: Seq<Arc<VideoFrameData>>, ts: u64, n: int)
    requires
        0 <= n <= frames.len(),
    ensures
        0 <= worst_delta(frames, ts, n) <= u64::MAX,
        forall|j: int|
            0 <= j < n ==> delta(ts, (#[trigger] frames[j]).timestamp_us) <= worst_delta(
                frames,
                ts,
                n,
            ),
        n > 0 ==> exists|j: int|
            0 <= j < n && delta(ts, (#[trigger] frames[j]).timestamp_us) == worst_delta(
                frames,
                ts,
                n,
            ),
    decreases n,
{
    if n > 0 {
        lemma_worst(frames, ts, n - 1);
        let before = worst_delta(frames, ts, n - 1);
        if delta(ts, frames[n - 1].timestamp_us) < before {
            let j = choose|j: int|
                0 <= j < n - 1 && delta(ts, (#[trigger] frames[j]).timestamp_us) == before;
            assert(0 <= j < n && delta(ts, frames[j].timestamp_us) == worst_delta(frames, ts, n));
        }
    }
}

/// Emitting a state takes its frame and all older ones from a track and remembers the frame; a
/// track that had none to suit keeps what it has. The other states stay in line.
pub proof fn law_emit_uses_frames_up(buffer: SyncView, i: int)
    requires
        buffer.states.len() > 0,
        cursors_valid(buffer),
        tracks_in_order(buffer),
        0 <= i < buffer.tracks.len(),
    ensures
        ({
            let next = buffer.after_emit();
            let track = buffer.tracks[i];
            &&& next.states == buffer.states.skip(1)
            &&& next.tracks.len() == buffer.tracks.len()
            &&& if exists|k: int| suits(buffer, i, k) {
                exists|k: int| #[trigger]
                    suits(buffer, i, k) && {
                        &&& buffer.head_frames()[i] == track.frames[k]
                        &&& next.tracks[i].frames == track.frames.skip(k + 1)
                        &&& next.tracks[i].last_emitted == Some(track.frames[k])
                    }
            } else {
                &&& next.tracks[i].frames == track.frames
                &&& next.tracks[i].last_emitted == track.last_emitted
            }
        }),
{
    let track = buffer.tracks[i];
    let range = buffer.config.search_range_us;
    lemma_fresh(buffer, i);
    if track.fresh(buffer.head_ts(), buffer.later(), buffer.config) {
        let k = track.found(buffer.head_ts(), buffer.later(), range)->0;
        law_match_is_nearest(track, buffer.head_ts(), buffer.later(), range, k);
        lemma_suits(buffer, i, k);
        assert(suits(buffer, i, k) && {
            &&& buffer.head_frames()[i] == track.frames[k]
            &&& buffer.after_emit().tracks[i].frames == track.frames.skip(k + 1)
            &&& buffer.after_emit().tracks[i].last_emitted == Some(track.frames[k])
        });
    }
}

/// What every observation of a look at the states has under the name of track `i`.
pub open spec fn drawn_from(buffer: SyncView, i: int, out: OutputView) -> bool {
    forall|m: int|
        0 <= m < out.observations.len() ==> {
            let frames = (#[trigger] out.observations[m]).frames;
            let frame = frames[buffer.names[i]];
            &&& frames.contains_key(buffer.names[i])
            &&& buffer.tracks[i].frames.contains(frame) || buffer.tracks[i].last_emitted == Some(
                frame,
            )
            &&& !buffer.config.reuse_stale_frames ==> abs(
                frame.timestamp_us - out.observations[m].timestamp_us,
            ) < buffer.config.search_range_us
        }
}

/// Every observation, not only the first, shows under the name of a track a frame of that track:
/// one that it held or the one it emitted last. Unless stale frames are reused, the frame lies
/// within the search range of the observation.
pub proof fn law_observations_draw_from_their_tracks(buffer: SyncView, i: int)
    requires
        cursors_valid(buffer),
        tracks_in_order(buffer),
        buffer.names.len() == buffer.tracks.len(),
        shown(buffer.names, i),
    ensures
        drawn_from(buffer, i, buffer.run().1),
    decreases buffer.states.len(),
{
    if buffer.states.len() > 0 {
        lemma_verdicts(buffer);
        crate::sync_laws::lemma_step_keeps_order(buffer);
        let hopeless = first_true(buffer.hopeless_tracks());
        if hopeless is Some {
            let next = buffer.after_drop(hopeless->0);
            law_observations_draw_from_their_tracks(next, i);
            assert(buffer.run().1.observations =~= next.run().1.observations);
            assert(next.tracks[i].frames == buffer.tracks[i].frames);
        } else if first_true(buffer.blocked_tracks()) is None {
            let next = buffer.after_emit();
            let out = buffer.run().1;
            law_observations_draw_from_their_tracks(next, i);
            assert(served(buffer, i));
            law_each_name_shows_its_track(buffer, i);
            law_emit_uses_frames_up(buffer, i);
            assert(out.observations =~= seq![buffer.head_observation()]
                + next.run().1.observations);
            assert forall|m: int| 0 <= m < out.observations.len() implies {
                let frames = (#[trigger] out.observations[m]).frames;
                let frame = frames[buffer.names[i]];
                &&& frames.contains_key(buffer.names[i])
                &&& buffer.tracks[i].frames.contains(frame) || buffer.tracks[i].last_emitted
                    == Some(frame)
                &&& !buffer.config.reuse_stale_frames ==> abs(
                    frame.timestamp_us - out.observations[m].timestamp_us,
                ) < buffer.config.search_range_us
            } by {
                let track = buffer.tracks[i];
                let frame = out.observations[m].frames[buffer.names[i]];
                if m == 0 {
                    if exists|k: int| suits(buffer, i, k) {
                        let k = choose|k: int|
                            suits(buffer, i, k) && frame == #[trigger] track.frames[k];
                        assert(track.frames.contains(frame));
                    }
                } else {
                    let held = next.run().1.observations[m - 1];
                    assert(out.observations[m] == held);
                    if next.tracks[i].frames.contains(frame) {
                        let j = choose|j: int|
                            0 <= j < next.tracks[i].frames.len() && next.tracks[i].frames[j]
                                == frame;
                        if exists|k: int| suits(buffer, i, k) {
                            let k = choose|k: int| #[trigger]
                                suits(buffer, i, k) && {
                                    &&& buffer.head_frames()[i] == track.frames[k]
                                    &&& next.tracks[i].frames == track.frames.skip(k + 1)
                                    &&& next.tracks[i].last_emitted == Some(track.frames[k])
                                };
                            assert(track.frames[j + k + 1] == frame);
                        }
                    } else if exists|k: int| suits(buffer, i, k) {
                        let k = choose|k: int| #[trigger]
                            suits(buffer, i, k) && {
                                &&& buffer.head_frames()[i] == track.frames[k]
                                &&& next.tracks[i].frames == track.frames.skip(k + 1)
                                &&& next.tracks[i].last_emitted == Some(track.frames[k])
                            };
                        assert(track.frames[k] == frame);
                    }
                }
            }
        }
    }
}

/// `held` is the buffer with one more frame on track `i`, of which only the newest that fit stay.
pub open spec fn holds_frame(
    buffer: SyncView,
    i: int,
    frame: Arc<VideoFrameData>,
    held: SyncView,
) -> bool {
    let all = buffer.tracks[i].frames.push(frame);
    let room = buffer.config.video_buffer_size as int;
    &&& held.tracks.len() == buffer.tracks.len()
    &&& all.len() <= room ==> held.tracks[i].frames == all
    &&& all.len() > room ==> held.tracks[i].frames == all.skip(all.len() - room)
    &&& held.tracks[i].last_emitted == buffer.tracks[i].last_emitted
    &&& forall|j: int|
        0 <= j < buffer.tracks.len() && j != i ==> #[trigger] held.tracks[j] == buffer.tracks[j]
    &&& held.states == buffer.states
    &&& held.names == buffer.names
    &&& held.fields == buffer.fields
    &&& held.config == buffer.config
}

/// A frame that arrives joins the end of its own track, where the oldest frames give way and are
/// counted; then the states are looked at, unless the oldest one waits for another track and no
/// frame gave way.
pub proof fn law_frame_joins_its_track(buffer: SyncView, i: int, frame: Arc<VideoFrameData>)
    requires
        cursors_valid(buffer),
        0 <= i < buffer.tracks.len(),
    ensures
        exists|held: SyncView| #[trigger]
            holds_frame(buffer, i, frame, held) && cursors_valid(held) && {
                let (rest, out) = buffer.frame_pushed(i, frame);
                let lost = buffer.tracks[i].frames.len() + 1 - buffer.config.video_buffer_size;
                let waits = buffer.blocker matches Some(b) && b != i;
                &&& !waits || lost > 0 ==> {
                    &&& rest == held.run().0
                    &&& out.observations == held.run().1.observations
                    &&& out.drops == held.run().1.drops
                    &&& lost <= 0 ==> out.events == held.run().1.events
                    &&& lost > 0 ==> out.events.skip(1) == held.run().1.events
                }
                &&& waits && lost <= 0 ==> {
                    &&& rest == held
                    &&& held.blocker == buffer.blocker
                    &&& out.observations.len() == 0
                    &&& out.drops.len() == 0
                    &&& out.events.len() == 0
                }
                &&& out.evicted.len() == 0
                &&& lost > 0 ==> out.events.len() > 0 && out.events[0] == (
                SyncEvent::FramesEvicted { track: i as usize, count: lost as u64 })
            },
{
    let cap = buffer.config.video_buffer_size as int;
    let track = buffer.tracks[i];
    let held = SyncView { tracks: buffer.tracks.update(i, track.pushed(frame, cap)), ..buffer };
    let all = track.frames.push(frame);
    assert(all.skip(0) =~= all);
    assert(holds_frame(buffer, i, frame, held));
    assert(cursors_valid(held));
    let (rest, out) = buffer.frame_pushed(i, frame);
    crate::sync_laws::law_overflow_is_told(
        buffer,
        StateView { timestamp_us: 0, values: Seq::empty() },
        i,
        frame,
    );
    assert(out.observations =~= held.run().1.observations || rest == held);
    assert(out.drops =~= held.run().1.drops || rest == held);
    let waits = buffer.blocker matches Some(b) && b != i;
    let lost = track.frames.len() + 1 - cap;
    if !waits || lost > 0 {
        assert(out.observations =~= held.run().1.observations);
        assert(out.drops =~= held.run().1.drops);
        if lost > 0 {
            assert(out.events.skip(1) =~= held.run().1.events);
        } else {
            assert(out.events =~= held.run().1.events);
        }
    }
}

/// A state that arrives joins the end of the line; the oldest ones give way, are told in order
/// and counted; then the states are looked at.
pub proof fn law_state_joins_the_line(buffer: SyncView, state: StateView)
    ensures
        ({
            let (rest, out) = buffer.state_pushed(state);
            let all = buffer.states.push(state);
            let room = buffer.config.state_buffer_size as int;
            let lost = if all.len() > room {
                all.len() - room
            } else {
                0
            };
            let held = SyncView { states: all.skip(lost), ..buffer };
            &&& rest == held.run().0
            &&& out.observations == held.run().1.observations
            &&& out.drops == held.run().1.drops
            &&& out.evicted.len() == lost
            &&& forall|m: int|
                0 <= m < lost ==> #[trigger] out.evicted[m] == collect(
                    paired(buffer.fields, all[m].values),
                )
            &&& lost > 0 ==> out.events.len() > 0 && out.events[0] == (SyncEvent::StatesDropped {
                count: lost as u64,
            })
            &&& lost == 0 ==> out.events == held.run().1.events
            &&& lost > 0 ==> out.events.skip(1) == held.run().1.events
            &&& out.told() == out.evicted + out.drops
        }),
{
    let (rest, out) = buffer.state_pushed(state);
    let all = buffer.states.push(state);
    let room = buffer.config.state_buffer_size as int;
    let lost = if all.len() > room {
        all.len() - room
    } else {
        0
    };
    let held = SyncView { states: all.skip(lost), ..buffer };
    crate::sync_laws::lemma_run_evicts_nothing(held);
    assert(out.observations =~= held.run().1.observations);
    assert(out.drops =~= held.run().1.drops);
    if lost == 0 {
        assert(out.events =~= held.run().1.events);
    } else {
        assert(out.events.skip(1) =~= held.run().1.events);
    }
}

/// A cleared buffer holds nothing and falls back to nothing, and is set up as before.
pub proof fn law_clear_empties(buffer: SyncView)
    ensures
        ({
            let after = buffer.cleared();
            &&& after.states.len() == 0
            &&& after.blocker is None
            &&& after.names == buffer.names
            &&& after.fields == buffer.fields
            &&& after.config == buffer.config
            &&& after.tracks.len() == buffer.tracks.len()
            &&& forall|i: int|
                0 <= i < buffer.tracks.len() ==> {
                    &&& (#[trigger] after.tracks[i]).frames.len() == 0
                    &&& after.tracks[i].last_emitted is None
                    &&& after.tracks[i].cursor == 0
                }
        }),
{
}

/// Every declared name has its track, one only: the last that was declared under it.
pub proof fn law_every_name_has_its_track(names: Seq<Seq<char>>, name: Seq<char>, i: int, j: int)
    ensures
        names.contains(name) <==> exists|k: int| is_last_named(names, name, k),
        is_last_named(names, name, i) <==> shown(names, i) && names[i] == name,
        is_last_named(names, name, i) && is_last_named(names, name, j) ==> i == j,
{
    if is_last_named(names, name, i) && is_last_named(names, name, j) {
        if i < j {
            assert(names[j] != name);
        } else if j < i {
            assert(names[i] != name);
        }
    }
    if names.contains(name) {
        let k = choose|k: int| 0 <= k < names.len() && names[k] == name;
        lemma_last_named(names, name, k);
    }
}

proof fn lemma_last_named(names: Seq<Seq<char>>, name: Seq<char>, k: int)
    requires
        0 <= k < names.len(),
        names[k] == name,
    ensures
        exists|i: int| is_last_named(names, name, i),
    decreases names.len() - k,
{
    if exists|j: int| k < j < names.len() && #[trigger] names[j] == name {
        let j = choose|j: int| k < j < names.len() && #[trigger] names[j] == name;
        lemma_last_named(names, name, j);
    } else {
        assert(is_last_named(names, name, k));
    }
}

/// The first of several is the one with none before it, and there is one wherever there is any.
pub proof fn law_first_is_first(holds: Seq<bool>, i: int)
    ensures
        first_true(holds) == Some(i) <==> 0 <= i < holds.len() && holds[i] && forall|j: int|
            0 <= j < i ==> !#[trigger] holds[j],
        first_true(holds) is None <==> forall|j: int|
            0 <= j < holds.len() ==> !#[trigger] holds[j],
{
    lemma_first_true_none(holds);
    if 0 <= i < holds.len() && holds[i] && forall|j: int| 0 <= j < i ==> !#[trigger] holds[j] {
        crate::sync_model::lemma_first_true_is(holds, i);
    }
    if first_true(holds) == Some(i) {
        assert(crate::sync_model::is_first(holds, i));
    }
}

/// Outputs follow one another: everything of the earlier comes before everything of the later.
pub proof fn law_outputs_follow(a: OutputView, b: OutputView)
    ensures
        a.then_output(b).observations == a.observations + b.observations,
        a.then_output(b).drops == a.drops + b.drops,
        a.then_output(b).evicted == a.evicted + b.evicted,
        a.then_output(b).events == a.events + b.events,
        OutputView::empty().observations.len() == 0,
        OutputView::empty().drops.len() == 0,
        OutputView::empty().evicted.len() == 0,
        OutputView::empty().events.len() == 0,
{
}

/// Whatever order frames came in, a track all of whose frames suit the oldest state has one for it.
pub proof fn law_suitable_track_serves(buffer: SyncView, i: int)
    requires
        buffer.states.len() > 0,
        cursors_valid(buffer),
        0 <= i < buffer.tracks.len(),
        buffer.tracks[i].frames.len() > 0,
        forall|k: int| 0 <= k < buffer.tracks[i].frames.len() ==> suits(buffer, i, k),
    ensures
        buffer.tracks[i].fresh(buffer.head_ts(), buffer.later(), buffer.config),
{
    let track = buffer.tracks[i];
    let at = settled(track.frames, track.cursor, buffer.head_ts());
    lemma_settled(track.frames, track.cursor, buffer.head_ts());
    assert(suits(buffer, i, at));
    lemma_suits(buffer, i, at);
}

} // verus!
