//! What holds of every synchronisation buffer.

use std::sync::Arc;

use vstd::prelude::*;

use crate::field_map::collect;
use crate::sync_model::{
    advanced, claimed, delta, first_true, free, in_range, is_first, overflow, rewound, settled,
    worst_delta, OutputView, StateView, SyncView, TrackView,
};
use crate::types::{paired, SyncConfig, VideoFrameData};

verus! {

/// Frames in the order of their timestamps.
pub open spec fn in_order(frames: Seq<Arc<VideoFrameData>>) -> bool {
    forall|i: int, j: int|
        0 <= i <= j < frames.len() ==> (#[trigger] frames[i]).timestamp_us <= (
        #[trigger] frames[j]).timestamp_us
}

proof fn lemma_rewound(frames: Seq<Arc<VideoFrameData>>, cursor: int, ts: u64)
    requires
        0 <= cursor < frames.len(),
    ensures
        0 <= rewound(frames, cursor, ts) <= cursor,
        rewound(frames, cursor, ts) == 0 || frames[rewound(frames, cursor, ts)].timestamp_us <= ts,
    decreases cursor,
{
    if cursor > 0 && frames[cursor].timestamp_us > ts {
        lemma_rewound(frames, cursor - 1, ts);
    }
}

proof fn lemma_advanced(frames: Seq<Arc<VideoFrameData>>, cursor: int, ts: u64)
    requires
        0 <= cursor < frames.len(),
    ensures
        cursor <= advanced(frames, cursor, ts) < frames.len(),
        advanced(frames, cursor, ts) == cursor || frames[advanced(
            frames,
            cursor,
            ts,
        )].timestamp_us <= ts,
        advanced(frames, cursor, ts) + 1 < frames.len() ==> frames[advanced(frames, cursor, ts)
            + 1].timestamp_us > ts,
    decreases frames.len() - cursor,
{
    if cursor + 1 < frames.len() && frames[cursor + 1].timestamp_us <= ts {
        lemma_advanced(frames, cursor + 1, ts);
    }
}

/// A settled cursor stands on a frame that is not later than the state, unless it stands on
/// the first frame, and the frame behind it is later.
pub proof fn lemma_settled(frames: Seq<Arc<VideoFrameData>>, cursor: int, ts: u64)
    requires
        frames.len() > 0,
        cursor >= 0,
    ensures
        0 <= settled(frames, cursor, ts) < frames.len(),
        settled(frames, cursor, ts) == 0 || frames[settled(frames, cursor, ts)].timestamp_us <= ts,
        settled(frames, cursor, ts) + 1 < frames.len() ==> frames[settled(frames, cursor, ts)
            + 1].timestamp_us > ts,
        settled(frames, settled(frames, cursor, ts), ts) == settled(frames, cursor, ts),
{
    let start = if cursor >= frames.len() {
        frames.len() - 1
    } else {
        cursor
    };
    lemma_rewound(frames, start, ts);
    lemma_advanced(frames, rewound(frames, start, ts), ts);
}

/// A frame beyond the state that a later state claims is lost with all frames behind it; a frame
/// before the state that a later state claims is lost with all frames before it.
proof fn lemma_claim_spreads(near: u64, far: u64, ts: u64, later: Seq<StateView>)
    requires
        ts <= near <= far || far <= near <= ts,
        claimed(near, ts, later),
    ensures
        claimed(far, ts, later),
{
    let m = choose|m: int|
        0 <= m < later.len() && delta((#[trigger] later[m]).timestamp_us, near) < delta(ts, near);
    assert(delta(later[m].timestamp_us, far) < delta(ts, far));
}

/// Where a settled cursor stands decides for all frames: one that the state may have is matched
/// by one of the two frames around the cursor that is at least as near.
proof fn lemma_neighbours_decide(
    track: TrackView,
    ts: u64,
    later: Seq<StateView>,
    range: u64,
    j: int,
)
    requires
        in_order(track.frames),
        track.cursor >= 0,
        0 <= j < track.frames.len(),
        free(track.frames[j].timestamp_us, ts, later, range),
    ensures
        ({
            let at = settled(track.frames, track.cursor, ts);
            let next = at + 1 < track.frames.len() && free(
                track.frames[at + 1].timestamp_us,
                ts,
                later,
                range,
            ) && delta(ts, track.frames[at + 1].timestamp_us) <= delta(
                ts,
                track.frames[j].timestamp_us,
            );
            next || free(track.frames[at].timestamp_us, ts, later, range) && delta(
                ts,
                track.frames[at].timestamp_us,
            ) <= delta(ts, track.frames[j].timestamp_us)
        }),
{
    lemma_settled(track.frames, track.cursor, ts);
    let at = settled(track.frames, track.cursor, ts);
    let own = track.frames[j].timestamp_us;
    if j <= at {
        let here = track.frames[at].timestamp_us;
        assert(own <= here);
        if j < at && claimed(here, ts, later) {
            lemma_claim_spreads(here, own, ts, later);
        }
    } else {
        let next = track.frames[at + 1].timestamp_us;
        assert(next <= own);
        if claimed(next, ts, later) {
            lemma_claim_spreads(next, own, ts, later);
        }
    }
}

/// A match is within range, no later waiting state is nearer to it, and no buffered frame that
/// the state may have is nearer to the state.
pub proof fn law_match_is_nearest(
    track: TrackView,
    ts: u64,
    later: Seq<StateView>,
    range: u64,
    k: int,
)
    requires
        in_order(track.frames),
        track.cursor >= 0,
        track.found(ts, later, range) == Some(k),
    ensures
        0 <= k < track.frames.len(),
        in_range(track.frames[k].timestamp_us, ts, range),
        !claimed(track.frames[k].timestamp_us, ts, later),
        forall|j: int|
            0 <= j < track.frames.len() && free(
                (#[trigger] track.frames[j]).timestamp_us,
                ts,
                later,
                range,
            ) ==> delta(ts, track.frames[k].timestamp_us) <= delta(
                ts,
                track.frames[j].timestamp_us,
            ),
{
    lemma_settled(track.frames, track.cursor, ts);
    assert forall|j: int|
        0 <= j < track.frames.len() && free(
            (#[trigger] track.frames[j]).timestamp_us,
            ts,
            later,
            range,
        ) implies delta(ts, track.frames[k].timestamp_us) <= delta(
        ts,
        track.frames[j].timestamp_us,
    ) by {
        lemma_neighbours_decide(track, ts, later, range, j);
    }
}

/// A track has a match exactly where some buffered frame is within range and no later waiting
/// state is nearer to it.
pub proof fn law_match_exists(track: TrackView, ts: u64, later: Seq<StateView>, range: u64)
    requires
        in_order(track.frames),
        track.cursor >= 0,
    ensures
        track.found(ts, later, range) is Some <==> exists|j: int|
            0 <= j < track.frames.len() && free(
                (#[trigger] track.frames[j]).timestamp_us,
                ts,
                later,
                range,
            ),
{
    if track.found(ts, later, range) is Some {
        law_match_is_nearest(track, ts, later, range, track.found(ts, later, range)->0);
    } else {
        assert forall|j: int| 0 <= j < track.frames.len() implies !free(
            (#[trigger] track.frames[j]).timestamp_us,
            ts,
            later,
            range,
        ) by {
            if free(track.frames[j].timestamp_us, ts, later, range) {
                lemma_neighbours_decide(track, ts, later, range, j);
            }
        }
    }
}

/// Frames are shared fairly: whatever order they came in, the oldest state never takes a frame
/// that a later waiting state is nearer to.
pub proof fn law_share_is_fair(buffer: SyncView, i: int, m: int)
    requires
        buffer.states.len() > 0,
        cursors_valid(buffer),
        0 <= i < buffer.tracks.len(),
        0 < m < buffer.states.len(),
        buffer.tracks[i].fresh(buffer.head_ts(), buffer.later(), buffer.config),
    ensures
        ({
            let frame = buffer.head_frames()[i];
            delta(buffer.head_ts(), frame.timestamp_us) <= delta(
                buffer.states[m].timestamp_us,
                frame.timestamp_us,
            )
        }),
{
    let track = buffer.tracks[i];
    lemma_settled(track.frames, track.cursor, buffer.head_ts());
    let frame = buffer.head_frames()[i];
    assert(!claimed(frame.timestamp_us, buffer.head_ts(), buffer.later()));
    assert(buffer.later()[m - 1] == buffer.states[m]);
}

/// Giving up on a state is never premature: once a track is past the window of a state, no
/// later frame brings a match, however many frames and states arrive and wherever the cursor
/// stands.
pub proof fn law_hopeless_is_final(
    track: TrackView,
    longer: TrackView,
    more: Seq<Arc<VideoFrameData>>,
    ts: u64,
    later: Seq<StateView>,
    arrived: Seq<StateView>,
    config: SyncConfig,
)
    requires
        track.cursor >= 0,
        longer.cursor >= 0,
        track.hopeless(ts, later, config),
        longer.frames == track.frames + more,
        in_order(longer.frames),
    ensures
        longer.found(ts, later + arrived, config.search_range_us) is None,
{
    let n = track.frames.len() as int;
    let range = config.search_range_us;
    let waiting = later + arrived;
    assert(in_order(track.frames)) by {
        assert forall|i: int, j: int| 0 <= i <= j < n implies (
        #[trigger] track.frames[i]).timestamp_us <= (#[trigger] track.frames[j]).timestamp_us by {
            assert(longer.frames[i] == track.frames[i]);
            assert(longer.frames[j] == track.frames[j]);
            assert(longer.frames[i].timestamp_us <= longer.frames[j].timestamp_us);
        }
    }
    law_match_exists(track, ts, later, range);
    law_match_exists(longer, ts, waiting, range);
    assert forall|j: int| 0 <= j < longer.frames.len() implies !free(
        (#[trigger] longer.frames[j]).timestamp_us,
        ts,
        waiting,
        range,
    ) by {
        let at = longer.frames[j].timestamp_us;
        let newest = track.frames.last().timestamp_us;
        assert(longer.frames[n - 1] == track.frames[n - 1]);
        assert(!free(track.frames[n - 1].timestamp_us, ts, later, range));
        if j < n {
            assert(longer.frames[j] == track.frames[j]);
            assert(!free(track.frames[j].timestamp_us, ts, later, range));
        } else {
            assert(longer.frames[n - 1].timestamp_us <= longer.frames[j].timestamp_us);
            assert(in_range(at, ts, range) ==> at == newest);
        }
        if claimed(at, ts, later) {
            let m = choose|m: int|
                0 <= m < later.len() && delta((#[trigger] later[m]).timestamp_us, at) < delta(
                    ts,
                    at,
                );
            assert(waiting[m] == later[m]);
        }
    }
}

/// Cursors never point before the first frame.
pub open spec fn cursors_valid(buffer: SyncView) -> bool {
    forall|i: int| 0 <= i < buffer.tracks.len() ==> (#[trigger] buffer.tracks[i]).cursor >= 0
}

/// Every track holds its frames in order.
pub open spec fn tracks_in_order(buffer: SyncView) -> bool {
    forall|i: int|
        0 <= i < buffer.tracks.len() ==> in_order((#[trigger] buffer.tracks[i]).frames)
}

/// The oldest state is emitted: no track is past its window and none is waited for.
pub open spec fn head_is_emitted(buffer: SyncView) -> bool {
    &&& buffer.states.len() > 0
    &&& first_true(buffer.hopeless_tracks()) is None
    &&& first_true(buffer.blocked_tracks()) is None
}

proof fn lemma_worst_delta(frames: Seq<Arc<VideoFrameData>>, ts: u64, n: int)
    requires
        0 <= n <= frames.len(),
    ensures
        forall|j: int|
            0 <= j < n ==> delta(ts, (#[trigger] frames[j]).timestamp_us) <= worst_delta(
                frames,
                ts,
                n,
            ),
        n > 0 ==> exists|j: int|
            0 <= j < n && delta(ts, (#[trigger] frames[j]).timestamp_us) == worst_delta(
                frames,
                ts,
                n,
            ),
    decreases n,
{
    if n > 0 {
        lemma_worst_delta(frames, ts, n - 1);
        let before = worst_delta(frames, ts, n - 1);
        if delta(ts, frames[n - 1].timestamp_us) < before {
            let j = choose|j: int|
                0 <= j < n - 1 && delta(ts, (#[trigger] frames[j]).timestamp_us) == before;
            assert(0 <= j < n && delta(ts, frames[j].timestamp_us) == worst_delta(frames, ts, n));
        }
    }
}

/// An observation takes from every track either the nearest buffered frame that the state may
/// have, which is within range, or, only where stale frames are reused, the last emitted one.
pub proof fn law_observation_is_aligned(buffer: SyncView, i: int)
    requires
        head_is_emitted(buffer),
        cursors_valid(buffer),
        tracks_in_order(buffer),
        0 <= i < buffer.tracks.len(),
    ensures
        ({
            let track = buffer.tracks[i];
            let ts = buffer.head_ts();
            let frame = buffer.head_frames()[i];
            if track.fresh(ts, buffer.later(), buffer.config) {
                &&& track.frames.contains(frame)
                &&& in_range(frame.timestamp_us, ts, buffer.config.search_range_us)
                &&& !claimed(frame.timestamp_us, ts, buffer.later())
                &&& forall|j: int|
                    0 <= j < track.frames.len() && free(
                        (#[trigger] track.frames[j]).timestamp_us,
                        ts,
                        buffer.later(),
                        buffer.config.search_range_us,
                    ) ==> delta(ts, frame.timestamp_us) <= delta(
                        ts,
                        track.frames[j].timestamp_us,
                    )
            } else {
                &&& buffer.config.reuse_stale_frames
                &&& track.last_emitted == Some(frame)
            }
        }),
{
    let track = buffer.tracks[i];
    let ts = buffer.head_ts();
    crate::sync_model::lemma_first_true_none(buffer.hopeless_tracks());
    crate::sync_model::lemma_first_true_none(buffer.blocked_tracks());
    assert(!buffer.hopeless_tracks()[i]);
    assert(!buffer.blocked_tracks()[i]);
    if track.fresh(ts, buffer.later(), buffer.config) {
        let range = buffer.config.search_range_us;
        let k = track.found(ts, buffer.later(), range)->0;
        law_match_is_nearest(track, ts, buffer.later(), range, k);
        assert(track.frames[k] == buffer.head_frames()[i]);
    }
}

/// Under the strict policy the reported worst distance of an observation stays below the
/// search range.
pub proof fn law_strict_delta_is_bounded(buffer: SyncView)
    requires
        head_is_emitted(buffer),
        cursors_valid(buffer),
        tracks_in_order(buffer),
        !buffer.config.reuse_stale_frames,
        buffer.tracks.len() > 0,
    ensures
        worst_delta(buffer.head_frames(), buffer.head_ts(), buffer.tracks.len() as int)
            < buffer.config.search_range_us,
        !buffer.head_is_stale(),
{
    let n = buffer.tracks.len() as int;
    let ts = buffer.head_ts();
    lemma_worst_delta(buffer.head_frames(), ts, n);
    let j = choose|j: int|
        0 <= j < n && delta(ts, (#[trigger] buffer.head_frames()[j]).timestamp_us) == worst_delta(
            buffer.head_frames(),
            ts,
            n,
        );
    law_observation_is_aligned(buffer, j);
}

/// An observation has one frame for every track name and one value for every state field
/// that the state has a value for.
pub proof fn law_observation_is_complete(buffer: SyncView)
    requires
        buffer.states.len() > 0,
        buffer.names.len() == buffer.tracks.len(),
        buffer.fields.len() <= buffer.states[0].values.len(),
    ensures
        forall|name: Seq<char>|
            #![trigger buffer.head_observation().frames.dom().contains(name)]
            buffer.head_observation().frames.dom().contains(name) <==> buffer.names.contains(name),
        forall|name: Seq<char>|
            #![trigger buffer.head_observation().state.dom().contains(name)]
            buffer.head_observation().state.dom().contains(name) <==> buffer.fields.contains(name),
{
    let frames = paired(buffer.names, buffer.head_frames());
    let values = paired(buffer.fields, buffer.states[0].values);
    assert forall|name: Seq<char>|
        #![trigger buffer.head_observation().frames.dom().contains(name)]
        buffer.head_observation().frames.dom().contains(name) <==> buffer.names.contains(
            name,
        ) by {
        crate::field_map::lemma_collect_domain(frames, name);
        if buffer.names.contains(name) {
            let i = choose|i: int| 0 <= i < buffer.names.len() && buffer.names[i] == name;
            assert(crate::field_map::named_at(frames, name, i));
        }
    }
    assert forall|name: Seq<char>|
        #![trigger buffer.head_observation().state.dom().contains(name)]
        buffer.head_observation().state.dom().contains(name) <==> buffer.fields.contains(
            name,
        ) by {
        crate::field_map::lemma_collect_domain(values, name);
        if buffer.fields.contains(name) {
            let i = choose|i: int| 0 <= i < buffer.fields.len() && buffer.fields[i] == name;
            assert(crate::field_map::named_at(values, name, i));
        }
    }
}

/// A matched frame and all frames before it leave their track; the frames behind it stay, and
/// a track that fell back to its last emitted frame keeps everything.
pub proof fn law_emit_removes_matched(buffer: SyncView, i: int)
    requires
        buffer.states.len() > 0,
        0 <= i < buffer.tracks.len(),
    ensures
        match buffer.tracks[i].found(
            buffer.head_ts(),
            buffer.later(),
            buffer.config.search_range_us,
        ) {
            Some(k) => {
                &&& buffer.after_emit().tracks[i].frames == buffer.tracks[i].frames.skip(k + 1)
                &&& buffer.after_emit().tracks[i].last_emitted == Some(buffer.tracks[i].frames[k])
            },
            None => {
                &&& buffer.after_emit().tracks[i].frames == buffer.tracks[i].frames
                &&& buffer.after_emit().tracks[i].last_emitted == buffer.tracks[i].last_emitted
            },
        },
{
}

/// Positions, each before the next.
pub open spec fn ascending(at: Seq<int>) -> bool {
    forall|m: int, n: int| 0 <= m < n < at.len() ==> #[trigger] at[m] < #[trigger] at[n]
}

/// The fate of the first `gone` states: `at` are the positions of the emitted ones, `off`
/// those of the dropped ones.
pub open spec fn fates(
    buffer: SyncView,
    gone: int,
    at: Seq<int>,
    off: Seq<int>,
    out: OutputView,
) -> bool {
    &&& at.len() + off.len() == gone
    &&& at.len() == out.observations.len()
    &&& off.len() == out.drops.len()
    &&& ascending(at)
    &&& ascending(off)
    &&& forall|m: int|
        0 <= m < at.len() ==> {
            &&& 0 <= #[trigger] at[m] < gone
            &&& out.observations[m].timestamp_us == buffer.states[at[m]].timestamp_us
            &&& out.observations[m].state == collect(
                paired(buffer.fields, buffer.states[at[m]].values),
            )
        }
    &&& forall|m: int|
        0 <= m < off.len() ==> {
            &&& 0 <= #[trigger] off[m] < gone
            &&& out.drops[m] == collect(paired(buffer.fields, buffer.states[off[m]].values))
        }
    &&& forall|m: int, n: int|
        0 <= m < at.len() && 0 <= n < off.len() ==> #[trigger] at[m] != #[trigger] off[n]
}

proof fn lemma_run_conserves(buffer: SyncView) -> (fate: (Seq<int>, Seq<int>))
    ensures
        ({
            let (rest, out) = buffer.run();
            let gone = (out.observations.len() + out.drops.len()) as int;
            &&& gone <= buffer.states.len()
            &&& rest.states == buffer.states.skip(gone)
            &&& fates(buffer, gone, fate.0, fate.1, out)
        }),
    decreases buffer.states.len(),
{
    if buffer.states.len() == 0 {
        assert(buffer.states.skip(0) =~= buffer.states);
        (Seq::empty(), Seq::empty())
    } else {
        match (first_true(buffer.hopeless_tracks()), first_true(buffer.blocked_tracks())) {
            (Some(i), _) => {
                let next = buffer.after_drop(i);
                let (at0, off0) = lemma_run_conserves(next);
                let at = at0.map_values(|m: int| m + 1);
                let off = seq![0int] + off0.map_values(|m: int| m + 1);
                let out = buffer.run().1;
                let gone = (out.observations.len() + out.drops.len()) as int;
                assert(out.observations =~= next.run().1.observations);
                assert(out.drops =~= seq![buffer.head_fields()] + next.run().1.drops);
                assert(buffer.states.skip(1).skip(gone - 1) =~= buffer.states.skip(gone));
                assert forall|m: int| 0 <= m < at.len() implies {
                    &&& 0 <= #[trigger] at[m] < gone
                    &&& out.observations[m].timestamp_us == buffer.states[at[m]].timestamp_us
                    &&& out.observations[m].state == collect(
                        paired(buffer.fields, buffer.states[at[m]].values),
                    )
                } by {
                    assert(at[m] == at0[m] + 1);
                    assert(next.states[at0[m]] == buffer.states[at[m]]);
                }
                assert forall|m: int| 0 <= m < off.len() implies {
                    &&& 0 <= #[trigger] off[m] < gone
                    &&& out.drops[m] == collect(
                        paired(buffer.fields, buffer.states[off[m]].values),
                    )
                } by {
                    if m > 0 {
                        assert(off[m] == off0[m - 1] + 1);
                        assert(next.states[off0[m - 1]] == buffer.states[off[m]]);
                        assert(out.drops[m] == next.run().1.drops[m - 1]);
                    }
                }
                assert forall|m: int, n: int|
                    0 <= m < at.len() && 0 <= n < off.len() implies #[trigger] at[m]
                    != #[trigger] off[n] by {
                    assert(at[m] == at0[m] + 1);
                    if n > 0 {
                        assert(off[n] == off0[n - 1] + 1);
                    }
                }
                (at, off)
            },
            (None, Some(i)) => {
                assert(buffer.states.skip(0) =~= buffer.states);
                (Seq::empty(), Seq::empty())
            },
            (None, None) => {
                let next = buffer.after_emit();
                let (at0, off0) = lemma_run_conserves(next);
                let at = seq![0int] + at0.map_values(|m: int| m + 1);
                let off = off0.map_values(|m: int| m + 1);
                let out = buffer.run().1;
                let gone = (out.observations.len() + out.drops.len()) as int;
                assert(out.observations =~= seq![buffer.head_observation()]
                    + next.run().1.observations);
                assert(out.drops =~= next.run().1.drops);
                assert(buffer.states.skip(1).skip(gone - 1) =~= buffer.states.skip(gone));
                assert forall|m: int| 0 <= m < at.len() implies {
                    &&& 0 <= #[trigger] at[m] < gone
                    &&& out.observations[m].timestamp_us == buffer.states[at[m]].timestamp_us
                    &&& out.observations[m].state == collect(
                        paired(buffer.fields, buffer.states[at[m]].values),
                    )
                } by {
                    if m > 0 {
                        assert(at[m] == at0[m - 1] + 1);
                        assert(next.states[at0[m - 1]] == buffer.states[at[m]]);
                        assert(out.observations[m] == next.run().1.observations[m - 1]);
                    }
                }
                assert forall|m: int| 0 <= m < off.len() implies {
                    &&& 0 <= #[trigger] off[m] < gone
                    &&& out.drops[m] == collect(
                        paired(buffer.fields, buffer.states[off[m]].values),
                    )
                } by {
                    assert(off[m] == off0[m] + 1);
                    assert(next.states[off0[m]] == buffer.states[off[m]]);
                }
                assert forall|m: int, n: int|
                    0 <= m < at.len() && 0 <= n < off.len() implies #[trigger] at[m]
                    != #[trigger] off[n] by {
                    assert(off[n] == off0[n] + 1);
                    if m > 0 {
                        assert(at[m] == at0[m - 1] + 1);
                    }
                }
                (at, off)
            },
        }
    }
}

/// States leave oldest first, each either as one observation or as one drop, and the rest
/// stays in place: no state is lost, doubled or overtaken.
pub proof fn law_states_are_conserved(buffer: SyncView)
    ensures
        ({
            let (rest, out) = buffer.run();
            let gone = (out.observations.len() + out.drops.len()) as int;
            &&& gone <= buffer.states.len()
            &&& rest.states == buffer.states.skip(gone)
            &&& exists|at: Seq<int>, off: Seq<int>| #[trigger] fates(buffer, gone, at, off, out)
        }),
{
    let (at, off) = lemma_run_conserves(buffer);
    let out = buffer.run().1;
    assert(fates(buffer, (out.observations.len() + out.drops.len()) as int, at, off, out));
}

/// Looking at the states pushes none of them out.
pub proof fn lemma_run_evicts_nothing(buffer: SyncView)
    ensures
        buffer.run().1.evicted.len() == 0,
    decreases buffer.states.len(),
{
    if buffer.states.len() > 0 {
        match (first_true(buffer.hopeless_tracks()), first_true(buffer.blocked_tracks())) {
            (Some(i), _) => lemma_run_evicts_nothing(buffer.after_drop(i)),
            (None, Some(i)) => {},
            (None, None) => lemma_run_evicts_nothing(buffer.after_emit()),
        }
    }
}

/// Every state is accounted for: when one arrives, the oldest that no longer fit are told in
/// order, and every other one waits, was emitted or was dropped. A frame pushes no state out.
pub proof fn law_overflow_is_told(
    buffer: SyncView,
    state: StateView,
    i: int,
    frame: Arc<VideoFrameData>,
)
    requires
        0 <= i < buffer.tracks.len(),
    ensures
        ({
            let (rest, out) = buffer.state_pushed(state);
            let all = buffer.states.push(state);
            let extra = overflow(all.len() as int, buffer.config.state_buffer_size as int);
            &&& out.evicted == Seq::new(
                extra as nat,
                |m: int| collect(paired(buffer.fields, all[m].values)),
            )
            &&& out.told().take(extra) == out.evicted
            &&& rest.states.len() + out.observations.len() + out.told().len() == all.len()
        }),
        buffer.frame_pushed(i, frame).1.evicted.len() == 0,
{
    let (rest, out) = buffer.state_pushed(state);
    let all = buffer.states.push(state);
    let extra = overflow(all.len() as int, buffer.config.state_buffer_size as int);
    let queued = SyncView { states: all.skip(extra), ..buffer };
    lemma_run_evicts_nothing(queued);
    law_states_are_conserved(queued);
    assert(out.evicted =~= Seq::new(
        extra as nat,
        |m: int| collect(paired(buffer.fields, all[m].values)),
    ));
    assert(out.told().take(extra) =~= out.evicted);
    let cap = buffer.config.video_buffer_size as int;
    lemma_run_evicts_nothing(
        SyncView {
            tracks: buffer.tracks.update(i, buffer.tracks[i].pushed(frame, cap)),
            ..buffer
        },
    );
}

/// No track and no queue of states exceeds its configured size.
pub open spec fn within_limits(buffer: SyncView) -> bool {
    &&& buffer.states.len() <= buffer.config.state_buffer_size
    &&& forall|i: int|
        0 <= i < buffer.tracks.len() ==> (#[trigger] buffer.tracks[i]).frames.len()
            <= buffer.config.video_buffer_size
}

/// `after` holds no more than `before`, and what it holds is in the same order.
pub open spec fn shrunk(before: SyncView, after: SyncView) -> bool {
    &&& after.names == before.names
    &&& after.fields == before.fields
    &&& after.config == before.config
    &&& after.tracks.len() == before.tracks.len()
    &&& after.states.len() <= before.states.len()
    &&& forall|i: int|
        0 <= i < before.tracks.len() ==> tail_of(
            (#[trigger] before.tracks[i]).frames,
            after.tracks[i].frames,
        )
    &&& cursors_valid(before) ==> cursors_valid(after)
}

/// `tail` is what is left of `all` once some items left at the front.
pub open spec fn tail_of(
    all: Seq<Arc<VideoFrameData>>,
    tail: Seq<Arc<VideoFrameData>>,
) -> bool {
    &&& tail.len() <= all.len()
    &&& tail == all.skip(all.len() - tail.len())
}

proof fn lemma_found_in_bounds(track: TrackView, ts: u64, later: Seq<StateView>, range: u64)
    requires
        track.cursor >= 0,
    ensures
        track.found(ts, later, range) matches Some(k) ==> 0 <= k < track.frames.len(),
        track.settle(ts).cursor >= 0,
{
    if track.frames.len() > 0 {
        lemma_settled(track.frames, track.cursor, ts);
    }
}

proof fn lemma_step_shrinks(buffer: SyncView, i: int)
    requires
        buffer.states.len() > 0,
        cursors_valid(buffer),
    ensures
        shrunk(buffer, buffer.after_drop(i)),
        shrunk(buffer, buffer.after_wait(i)),
        shrunk(buffer, buffer.after_emit()),
{
    let ts = buffer.head_ts();
    assert forall|j: int| 0 <= j < buffer.tracks.len() implies {
        &&& #[trigger] buffer.tracks[j].settle(ts).cursor >= 0
        &&& buffer.tracks[j].consumed(ts, buffer.later(), buffer.config).cursor >= 0
        &&& tail_of(
            buffer.tracks[j].frames,
            buffer.tracks[j].consumed(ts, buffer.later(), buffer.config).frames,
        )
        &&& tail_of(buffer.tracks[j].frames, buffer.tracks[j].frames)
    } by {
        lemma_found_in_bounds(
            buffer.tracks[j],
            ts,
            buffer.later(),
            buffer.config.search_range_us,
        );
        assert(buffer.tracks[j].frames.skip(0) =~= buffer.tracks[j].frames);
    }
    assert forall|j: int| 0 <= j < buffer.tracks.len() implies {
        &&& (#[trigger] buffer.after_drop(i).tracks[j]).cursor >= 0
        &&& buffer.after_wait(i).tracks[j].cursor >= 0
        &&& buffer.after_emit().tracks[j].cursor >= 0
    } by {
        assert(buffer.tracks[j].settle(ts).cursor >= 0);
    }
    assert forall|j: int| 0 <= j < buffer.tracks.len() implies {
        &&& tail_of((#[trigger] buffer.tracks[j]).frames, buffer.after_drop(i).tracks[j].frames)
        &&& tail_of(buffer.tracks[j].frames, buffer.after_wait(i).tracks[j].frames)
        &&& tail_of(buffer.tracks[j].frames, buffer.after_emit().tracks[j].frames)
    } by {
        assert(buffer.tracks[j].settle(ts).cursor >= 0);
    }
    assert(cursors_valid(buffer.after_wait(i))) by {
        assert forall|j: int| 0 <= j < buffer.tracks.len() implies (
        #[trigger] buffer.after_wait(i).tracks[j]).cursor >= 0 by {
            assert(buffer.after_drop(i).tracks[j].cursor >= 0);
        }
    }
    assert(cursors_valid(buffer.after_emit())) by {
        assert forall|j: int| 0 <= j < buffer.tracks.len() implies (
        #[trigger] buffer.after_emit().tracks[j]).cursor >= 0 by {
            assert(buffer.after_drop(i).tracks[j].cursor >= 0);
        }
    }
}

proof fn lemma_shrunk_trans(a: SyncView, b: SyncView, c: SyncView)
    requires
        shrunk(a, b),
        shrunk(b, c),
    ensures
        shrunk(a, c),
{
    assert forall|i: int| 0 <= i < a.tracks.len() implies tail_of(
        (#[trigger] a.tracks[i]).frames,
        c.tracks[i].frames,
    ) by {
        let x = a.tracks[i].frames;
        let y = b.tracks[i].frames;
        let z = c.tracks[i].frames;
        assert(tail_of(x, y));
        assert(tail_of(y, z));
        assert(x.skip(x.len() - y.len()).skip(y.len() - z.len()) =~= x.skip(x.len() - z.len()));
    }
}

/// Looking at the states only ever takes frames and states away, from the front.
pub proof fn law_run_shrinks(buffer: SyncView)
    requires
        cursors_valid(buffer),
    ensures
        shrunk(buffer, buffer.run().0),
    decreases buffer.states.len(),
{
    if buffer.states.len() == 0 {
        assert forall|j: int| 0 <= j < buffer.tracks.len() implies tail_of(
            (#[trigger] buffer.tracks[j]).frames,
            buffer.tracks[j].frames,
        ) by {
            assert(buffer.tracks[j].frames.skip(0) =~= buffer.tracks[j].frames);
        }
    } else {
        match (first_true(buffer.hopeless_tracks()), first_true(buffer.blocked_tracks())) {
            (Some(i), _) => {
                lemma_step_shrinks(buffer, i);
                law_run_shrinks(buffer.after_drop(i));
                lemma_shrunk_trans(buffer, buffer.after_drop(i), buffer.run().0);
            },
            (None, Some(i)) => {
                lemma_step_shrinks(buffer, i);
            },
            (None, None) => {
                lemma_step_shrinks(buffer, 0);
                law_run_shrinks(buffer.after_emit());
                lemma_shrunk_trans(buffer, buffer.after_emit(), buffer.run().0);
            },
        }
    }
}

/// What takes frames and states away keeps a buffer within its limits.
pub proof fn lemma_limits_shrink(before: SyncView, after: SyncView)
    requires
        shrunk(before, after),
        within_limits(before),
    ensures
        within_limits(after),
{
    assert forall|i: int| 0 <= i < after.tracks.len() implies (
    #[trigger] after.tracks[i]).frames.len() <= after.config.video_buffer_size by {
        assert(tail_of(before.tracks[i].frames, after.tracks[i].frames));
    }
}

/// Memory is bounded: a buffer within its limits stays within them whatever is pushed.
pub proof fn law_limits_are_kept(
    buffer: SyncView,
    i: int,
    frame: Arc<VideoFrameData>,
    state: StateView,
)
    requires
        cursors_valid(buffer),
        within_limits(buffer),
        0 <= i < buffer.tracks.len(),
    ensures
        within_limits(buffer.frame_pushed(i, frame).0),
        within_limits(buffer.state_pushed(state).0),
        within_limits(buffer.cleared()),
        cursors_valid(buffer.frame_pushed(i, frame).0),
        cursors_valid(buffer.state_pushed(state).0),
        cursors_valid(buffer.cleared()),
{
    let cap = buffer.config.video_buffer_size as int;
    let held = SyncView {
        tracks: buffer.tracks.update(i, buffer.tracks[i].pushed(frame, cap)),
        ..buffer
    };
    assert(cursors_valid(held));
    assert(within_limits(held));
    law_run_shrinks(held);
    lemma_limits_shrink(held, held.run().0);
    let scap = buffer.config.state_buffer_size as int;
    let dropped = overflow(buffer.states.len() as int + 1, scap);
    let queued = SyncView { states: buffer.states.push(state).skip(dropped), ..buffer };
    assert(cursors_valid(queued));
    assert(within_limits(queued));
    law_run_shrinks(queued);
    lemma_limits_shrink(queued, queued.run().0);
}

proof fn lemma_order_shrinks(before: SyncView, after: SyncView)
    requires
        shrunk(before, after),
        tracks_in_order(before),
    ensures
        tracks_in_order(after),
{
    assert forall|i: int| 0 <= i < after.tracks.len() implies in_order(
        (#[trigger] after.tracks[i]).frames,
    ) by {
        let all = before.tracks[i].frames;
        let tail = after.tracks[i].frames;
        assert(tail_of(all, tail));
        assert(in_order(all));
        let off = all.len() - tail.len();
        assert forall|m: int, n: int| 0 <= m <= n < tail.len() implies (
        #[trigger] tail[m]).timestamp_us <= (#[trigger] tail[n]).timestamp_us by {
            assert(tail[m] == all[m + off]);
            assert(tail[n] == all[n + off]);
        }
    }
}

/// Dropping and emitting the oldest state keep every track in order.
pub proof fn lemma_step_keeps_order(buffer: SyncView)
    requires
        buffer.states.len() > 0,
        cursors_valid(buffer),
        tracks_in_order(buffer),
    ensures
        forall|i: int|
            cursors_valid(#[trigger] buffer.after_drop(i)) && tracks_in_order(
                buffer.after_drop(i),
            ),
        cursors_valid(buffer.after_emit()),
        tracks_in_order(buffer.after_emit()),
{
    assert forall|i: int|
        cursors_valid(#[trigger] buffer.after_drop(i)) && tracks_in_order(
            buffer.after_drop(i),
        ) by {
        lemma_step_shrinks(buffer, i);
        lemma_order_shrinks(buffer, buffer.after_drop(i));
    }
    lemma_step_shrinks(buffer, 0);
    lemma_order_shrinks(buffer, buffer.after_emit());
}

/// Frames that arrive in order stay in order.
pub proof fn law_order_is_kept(
    buffer: SyncView,
    i: int,
    frame: Arc<VideoFrameData>,
    state: StateView,
)
    requires
        cursors_valid(buffer),
        tracks_in_order(buffer),
        0 <= i < buffer.tracks.len(),
        buffer.tracks[i].frames.len() > 0 ==> buffer.tracks[i].frames.last().timestamp_us
            <= frame.timestamp_us,
    ensures
        tracks_in_order(buffer.frame_pushed(i, frame).0),
        tracks_in_order(buffer.state_pushed(state).0),
        tracks_in_order(buffer.cleared()),
{
    let cap = buffer.config.video_buffer_size as int;
    let track = buffer.tracks[i];
    let held = SyncView { tracks: buffer.tracks.update(i, track.pushed(frame, cap)), ..buffer };
    let evicted = overflow(track.frames.len() as int + 1, cap);
    let all = track.frames.push(frame);
    assert(in_order(track.frames));
    assert(in_order(held.tracks[i].frames)) by {
        assert forall|m: int, n: int| 0 <= m <= n < held.tracks[i].frames.len() implies (
        #[trigger] held.tracks[i].frames[m]).timestamp_us <= (
        #[trigger] held.tracks[i].frames[n]).timestamp_us by {
            assert(held.tracks[i].frames[m] == all[m + evicted]);
            assert(held.tracks[i].frames[n] == all[n + evicted]);
            if n + evicted == track.frames.len() && m < n {
                assert(track.frames[m + evicted].timestamp_us
                    <= track.frames[track.frames.len() - 1].timestamp_us);
            }
        }
    }
    assert(tracks_in_order(held));
    assert(cursors_valid(held));
    law_run_shrinks(held);
    lemma_order_shrinks(held, held.run().0);
    let scap = buffer.config.state_buffer_size as int;
    let dropped = overflow(buffer.states.len() as int + 1, scap);
    let queued = SyncView { states: buffer.states.push(state).skip(dropped), ..buffer };
    assert(cursors_valid(queued));
    assert(tracks_in_order(queued));
    law_run_shrinks(queued);
    lemma_order_shrinks(queued, queued.run().0);
}

proof fn lemma_settle_keeps_verdict(
    track: TrackView,
    ts: u64,
    later: Seq<StateView>,
    config: SyncConfig,
)
    requires
        track.cursor >= 0,
    ensures
        track.settle(ts).settle(ts) == track.settle(ts),
        track.settle(ts).fresh(ts, later, config) == track.fresh(ts, later, config),
        track.settle(ts).stale(ts, later, config) == track.stale(ts, later, config),
        track.settle(ts).hopeless(ts, later, config) == track.hopeless(ts, later, config),
        track.settle(ts).blocked(ts, later, config) == track.blocked(ts, later, config),
{
    if track.frames.len() > 0 {
        lemma_settled(track.frames, track.cursor, ts);
    }
}

/// The hint of a buffer is right: without one no state waits, and with one the oldest state
/// waits for that very track.
pub open spec fn rested(buffer: SyncView) -> bool {
    match buffer.blocker {
        None => buffer.states.len() == 0,
        Some(b) => {
            &&& buffer.states.len() > 0
            &&& 0 <= b < buffer.tracks.len()
            &&& buffer.tracks[b].blocked(buffer.head_ts(), buffer.later(), buffer.config)
        },
    }
}

/// Looking at the states goes on until nothing more can be done: a second look changes
/// nothing and brings nothing.
pub proof fn law_run_is_stable(buffer: SyncView)
    requires
        cursors_valid(buffer),
    ensures
        rested(buffer.run().0),
        buffer.run().0.run().0 == buffer.run().0,
        buffer.run().0.run().1.observations.len() == 0,
        buffer.run().0.run().1.drops.len() == 0,
        buffer.run().0.run().1.evicted.len() == 0,
    decreases buffer.states.len(),
{
    if buffer.states.len() > 0 {
        match (first_true(buffer.hopeless_tracks()), first_true(buffer.blocked_tracks())) {
            (Some(i), _) => {
                lemma_step_shrinks(buffer, i);
                law_run_is_stable(buffer.after_drop(i));
            },
            (None, Some(i)) => {
                let next = buffer.after_wait(i);
                let ts = buffer.head_ts();
                assert forall|j: int| 0 <= j < buffer.tracks.len() implies {
                    &&& #[trigger] next.hopeless_tracks()[j] == buffer.hopeless_tracks()[j]
                    &&& next.blocked_tracks()[j] == buffer.blocked_tracks()[j]
                    &&& next.tracks[j].settle(ts) == next.tracks[j]
                } by {
                    lemma_settle_keeps_verdict(buffer.tracks[j], ts, buffer.later(), buffer.config);
                }
                assert(next.hopeless_tracks() =~= buffer.hopeless_tracks());
                assert forall|j: int| 0 <= j < buffer.tracks.len() implies next.blocked_tracks()[j]
                    == buffer.blocked_tracks()[j] by {
                    assert(next.hopeless_tracks()[j] == buffer.hopeless_tracks()[j]);
                }
                assert(next.blocked_tracks() =~= buffer.blocked_tracks());
                assert(is_first(buffer.blocked_tracks(), i));
                assert(next.blocked_tracks()[i]);
                assert(next.after_wait(i).tracks =~= next.tracks) by {
                    assert forall|j: int| 0 <= j < next.tracks.len() implies next.after_wait(
                        i,
                    ).tracks[j] == next.tracks[j] by {
                        assert(next.hopeless_tracks()[j] == buffer.hopeless_tracks()[j]);
                    }
                }
                assert(next.after_wait(i) == next);
            },
            (None, None) => {
                lemma_step_shrinks(buffer, 0);
                law_run_is_stable(buffer.after_emit());
            },
        }
    }
}

/// The hint stays right whatever is pushed.
pub proof fn law_hint_is_kept(
    buffer: SyncView,
    i: int,
    frame: Arc<VideoFrameData>,
    state: StateView,
)
    requires
        cursors_valid(buffer),
        rested(buffer),
        0 <= i < buffer.tracks.len(),
    ensures
        rested(buffer.frame_pushed(i, frame).0),
        rested(buffer.state_pushed(state).0),
        rested(buffer.cleared()),
{
    let cap = buffer.config.video_buffer_size as int;
    let held = SyncView {
        tracks: buffer.tracks.update(i, buffer.tracks[i].pushed(frame, cap)),
        ..buffer
    };
    assert(cursors_valid(held));
    law_run_is_stable(held);
    let scap = buffer.config.state_buffer_size as int;
    let dropped = overflow(buffer.states.len() as int + 1, scap);
    let queued = SyncView { states: buffer.states.push(state).skip(dropped), ..buffer };
    assert(cursors_valid(queued));
    law_run_is_stable(queued);
}

/// Not looking at the states loses nothing: while the oldest state waits for another track
/// and no track is past its window, a look after the push would neither emit nor drop
/// anything.
pub proof fn law_skipped_look_is_idle(buffer: SyncView, i: int, frame: Arc<VideoFrameData>)
    requires
        rested(buffer),
        0 <= i < buffer.tracks.len(),
        buffer.blocker is Some,
        buffer.blocker != Some(i),
        buffer.tracks[i].frames.len() < buffer.config.video_buffer_size,
        first_true(buffer.frame_pushed(i, frame).0.hopeless_tracks()) is None,
    ensures
        ({
            let held = buffer.frame_pushed(i, frame).0;
            &&& held.run().0.states == buffer.states
            &&& held.run().1.observations.len() == 0
            &&& held.run().1.drops.len() == 0
        }),
{
    let held = buffer.frame_pushed(i, frame).0;
    let b = buffer.blocker->0;
    assert(held.tracks[b] == buffer.tracks[b]);
    crate::sync_model::lemma_first_true_none(held.blocked_tracks());
    assert(held.blocked_tracks()[b]);
}

/// With stale frames reused, every state becomes an observation once every track has emitted.
pub proof fn law_reuse_emits_every_state(buffer: SyncView)
    requires
        buffer.config.reuse_stale_frames,
        forall|i: int|
            0 <= i < buffer.tracks.len() ==> (#[trigger] buffer.tracks[i]).last_emitted is Some,
    ensures
        ({
            let (rest, out) = buffer.run();
            &&& rest.states.len() == 0
            &&& out.drops.len() == 0
            &&& out.observations.len() == buffer.states.len()
        }),
    decreases buffer.states.len(),
{
    if buffer.states.len() > 0 {
        crate::sync_model::lemma_first_true_none(buffer.hopeless_tracks());
        crate::sync_model::lemma_first_true_none(buffer.blocked_tracks());
        let ts = buffer.head_ts();
        assert forall|i: int| 0 <= i < buffer.tracks.len() implies !#[trigger]
            buffer.hopeless_tracks()[i] && !buffer.blocked_tracks()[i] by {
            assert(buffer.tracks[i].last_emitted is Some);
        }
        assert forall|i: int| 0 <= i < buffer.tracks.len() implies !#[trigger]
            buffer.blocked_tracks()[i] by {
            assert(!buffer.hopeless_tracks()[i]);
        }
        let next = buffer.after_emit();
        assert forall|i: int| 0 <= i < next.tracks.len() implies (
        #[trigger] next.tracks[i]).last_emitted is Some by {
            assert(buffer.tracks[i].last_emitted is Some);
        }
        law_reuse_emits_every_state(next);
    }
}

/// A cleared buffer is as good as a new one: two buffers for the same tracks, fields and
/// configuration cannot be told apart once both were cleared.
pub proof fn law_clear_is_fresh(a: SyncView, b: SyncView)
    requires
        a.names == b.names,
        a.fields == b.fields,
        a.config == b.config,
        a.tracks.len() == b.tracks.len(),
    ensures
        a.cleared() == b.cleared(),
        a.cleared().cleared() == a.cleared(),
{
    assert(a.cleared().tracks =~= b.cleared().tracks);
    assert(a.cleared().cleared().tracks =~= a.cleared().tracks);
}

} // verus!
