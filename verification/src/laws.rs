//! What holds of recordings as a whole.

use vstd::prelude::*;

use crate::ogg_stream::{Packet, PacketEnd, lemma_packets_bounded_by_pages, stream_bytes};
use crate::session::{BackfillView, RecordingSession, SessionView, closed_users, silence};
use crate::track::{STREAM_SERIAL, TrackView, file_packets, granule, header_packets, open_packets};

verus! {

// ---------------------------------------------------------------------------
// Files
// ---------------------------------------------------------------------------

/// A closed file is one logical stream: its two headers, and then every frame in order.
pub proof fn law_file_holds_every_frame(pre_skip: u16, frames: Seq<Seq<u8>>)
    ensures
        file_packets(pre_skip, frames).len() == frames.len() + 2,
        file_packets(pre_skip, frames).take(2) == header_packets(pre_skip),
        forall|i: int|
            0 <= i < frames.len() ==> (#[trigger] file_packets(pre_skip, frames)[i + 2]).data
                == frames[i],
        forall|i: int|
            0 <= i < file_packets(pre_skip, frames).len() ==> (#[trigger] file_packets(
                pre_skip,
                frames,
            )[i]).serial == STREAM_SERIAL,
{
    assert(file_packets(pre_skip, frames).take(2) =~= header_packets(pre_skip));
}

/// The stream ends with the last frame and nowhere before. A file without frames does not end
/// its stream.
pub proof fn law_last_frame_ends_stream(pre_skip: u16, frames: Seq<Seq<u8>>)
    ensures
        forall|i: int|
            0 <= i < file_packets(pre_skip, frames).len() ==> ((#[trigger] file_packets(
                pre_skip,
                frames,
            )[i]).end == PacketEnd::Stream <==> frames.len() > 0 && i == frames.len() + 1),
{
}

/// A track after all of `frames` were recorded, one after the other.
pub open spec fn recorded(start: TrackView, frames: Seq<Seq<u8>>) -> TrackView
    decreases frames.len(),
{
    if frames.len() == 0 {
        start
    } else {
        recorded(start, frames.drop_last()).record(frames.last())
    }
}

/// Frames are kept in the order in which they were recorded. None is lost, repeated or moved.
pub proof fn law_frames_are_kept_in_order(start: TrackView, frames: Seq<Seq<u8>>)
    ensures
        recorded(start, frames) == (TrackView { frames: start.frames + frames, ..start }),
    decreases frames.len(),
{
    if frames.len() == 0 {
        assert(start.frames + frames =~= start.frames);
    } else {
        law_frames_are_kept_in_order(start, frames.drop_last());
        assert((start.frames + frames.drop_last()).push(frames.last()) =~= start.frames + frames);
    }
}

/// While frames may still follow, all but the last one are written, in order and 960 samples
/// apart, and none of them ends the stream.
pub proof fn law_last_frame_is_held_back(track: TrackView)
    requires
        track.open_fits(),
        track.frames.len() > 0,
    ensures
        open_packets(track.pre_skip, track.frames).len() == track.frames.len() + 1,
        open_packets(track.pre_skip, track.frames).take(2) == header_packets(track.pre_skip),
        forall|i: int|
            0 <= i < track.frames.len() - 1 ==> {
                let packet = #[trigger] open_packets(track.pre_skip, track.frames)[i + 2];
                &&& packet.data == track.frames[i]
                &&& packet.serial == STREAM_SERIAL
                &&& packet.end == PacketEnd::Normal
                &&& packet.absgp == track.pre_skip + 960 * i
            },
{
    let packets = open_packets(track.pre_skip, track.frames);
    assert(packets.take(2) =~= header_packets(track.pre_skip));
    lemma_packets_bounded_by_pages(packets, STREAM_SERIAL);
    assert forall|i: int| 0 <= i < track.frames.len() - 1 implies (#[trigger] packets[i
        + 2]).absgp == track.pre_skip + 960 * i by {
        assert(granule(track.pre_skip, i as nat) <= u64::MAX);
    }
}

proof fn lemma_granule_fits(track: TrackView)
    requires
        track.file_fits(),
    ensures
        granule(track.pre_skip, track.frames.len()) <= u64::MAX,
{
    let packets = file_packets(track.pre_skip, track.frames);
    law_file_holds_every_frame(track.pre_skip, track.frames);
    lemma_packets_bounded_by_pages(packets, STREAM_SERIAL);
}

/// The granule positions of the frames grow, and the last one is the length of the recording:
/// 960 samples for each frame, behind the samples that a player drops. From the headers on, no
/// position is below the one before it.
pub proof fn law_granules_measure_time(track: TrackView)
    requires
        track.file_fits(),
        track.frames.len() > 0,
    ensures
        file_packets(track.pre_skip, track.frames).last().absgp - track.pre_skip == 960
            * track.frames.len(),
        forall|i: int|
            0 <= i < track.frames.len() - 1 ==> (#[trigger] file_packets(
                track.pre_skip,
                track.frames,
            )[i + 2]).absgp == track.pre_skip + 960 * i,
        forall|i: int, j: int|
            2 <= i < j < track.frames.len() + 2 ==> (#[trigger] file_packets(
                track.pre_skip,
                track.frames,
            )[i]).absgp < (#[trigger] file_packets(track.pre_skip, track.frames)[j]).absgp,
        forall|i: int, j: int|
            0 <= i <= j < track.frames.len() + 2 ==> (#[trigger] file_packets(
                track.pre_skip,
                track.frames,
            )[i]).absgp <= (#[trigger] file_packets(track.pre_skip, track.frames)[j]).absgp,
{
    lemma_granule_fits(track);
    let packets = file_packets(track.pre_skip, track.frames);
    let n = track.frames.len() as int;
    assert forall|i: int| 0 <= i < n - 1 implies (#[trigger] packets[i + 2]).absgp
        == track.pre_skip + 960 * i by {
        assert(granule(track.pre_skip, i as nat) <= granule(track.pre_skip, track.frames.len()));
    }
    assert forall|i: int, j: int| 2 <= i < j < n + 2 implies (#[trigger] packets[i]).absgp < (
    #[trigger] packets[j]).absgp by {
        assert(packets[(i - 2) + 2].absgp == track.pre_skip + 960 * (i - 2));
        if j < n + 1 {
            assert(packets[(j - 2) + 2].absgp == track.pre_skip + 960 * (j - 2));
        }
    }
}

proof fn lemma_stream_bytes_push(packets: Seq<Packet>, packet: Packet)
    ensures
        stream_bytes(packets).is_prefix_of(stream_bytes(packets.push(packet))),
{
    assert(packets.push(packet).drop_last() =~= packets);
}

/// Bytes that were handed out are never taken back: a further frame and the end of the stream
/// only add to them.
pub proof fn law_output_only_grows(track: TrackView, frame: Seq<u8>)
    ensures
        track.open_bytes().is_prefix_of(track.record(frame).open_bytes()),
        track.open_bytes().is_prefix_of(track.file_bytes()),
{
    let packets = open_packets(track.pre_skip, track.frames);
    let more = open_packets(track.pre_skip, track.frames.push(frame));
    if track.frames.len() == 0 {
        assert(more =~= packets);
        assert(packets =~= header_packets(track.pre_skip));
    } else {
        assert(more =~= packets.push(more.last()));
        lemma_stream_bytes_push(packets, more.last());
        lemma_stream_bytes_push(packets, file_packets(track.pre_skip, track.frames).last());
    }
}

// ---------------------------------------------------------------------------
// Timing
// ---------------------------------------------------------------------------

/// A backfill after all of `frames` were recorded, one after the other.
pub open spec fn backfilled(start: BackfillView, frames: Seq<Seq<u8>>) -> BackfillView
    decreases frames.len(),
{
    if frames.len() == 0 {
        start
    } else {
        backfilled(start, frames.drop_last()).after_frame(frames.last())
    }
}

/// A track that is filled up with one frame for each tick that has passed lacks none, and stands
/// where the session stands.
pub proof fn law_backfill_reaches_the_present(
    start: BackfillView,
    tick_count: u64,
    frames: Seq<Seq<u8>>,
)
    requires
        start.track.frames.len() == 0,
        start.missing == tick_count,
        frames.len() <= tick_count,
    ensures
        backfilled(start, frames).track.frames == frames,
        backfilled(start, frames).missing == tick_count - frames.len(),
        backfilled(start, frames).missing == 0 ==> backfilled(start, frames).track.frames.len()
            == tick_count,
    decreases frames.len(),
{
    if frames.len() == 0 {
        assert(start.track.frames =~= frames);
    } else {
        law_backfill_reaches_the_present(start, tick_count, frames.drop_last());
        assert(frames.drop_last().push(frames.last()) =~= frames);
    }
}

/// A session after `frames[i]` was recorded for `users[i]`, for each `i` in turn.
pub open spec fn after_frames(
    session: SessionView,
    users: Seq<u64>,
    frames: Seq<Seq<u8>>,
) -> SessionView
    decreases users.len(),
{
    if users.len() == 0 {
        session
    } else {
        after_frames(session, users.drop_last(), frames.drop_last()).after_frame(
            users.last(),
            frames.last(),
        )
    }
}

/// Recording one frame for each of some users gives each of them that one frame more, and
/// nobody else anything.
pub proof fn law_each_user_gets_one_frame(
    session: SessionView,
    users: Seq<u64>,
    frames: Seq<Seq<u8>>,
)
    requires
        users.len() == frames.len(),
        users.no_duplicates(),
        forall|i: int| 0 <= i < users.len() ==> session.tracks.contains_key(#[trigger] users[i]),
    ensures
        after_frames(session, users, frames).tracks.dom() == session.tracks.dom(),
        after_frames(session, users, frames).tick_count == session.tick_count,
        forall|i: int|
            0 <= i < users.len() ==> after_frames(session, users, frames).tracks[
                #[trigger] users[i]].frames == session.tracks[users[i]].frames.push(frames[i]),
        forall|user_id: u64|
            !users.contains(user_id) ==> #[trigger] after_frames(session, users, frames).tracks[
                user_id] == session.tracks[user_id],
    decreases users.len(),
{
    if users.len() > 0 {
        let (fewer, rest) = (users.drop_last(), frames.drop_last());
        let last = users.last();
        assert forall|i: int| 0 <= i < fewer.len() implies session.tracks.contains_key(
            #[trigger] fewer[i],
        ) by {
            assert(session.tracks.contains_key(users[i]));
        }
        law_each_user_gets_one_frame(session, fewer, rest);
        let before = after_frames(session, fewer, rest);
        let after = after_frames(session, users, frames);
        assert(!fewer.contains(last)) by {
            if fewer.contains(last) {
                let i = choose|i: int| 0 <= i < fewer.len() && fewer[i] == last;
                assert(users[i] == users[users.len() - 1]);
            }
        }
        assert(session.tracks.contains_key(users[users.len() - 1]));
        assert(after.tracks.dom() =~= session.tracks.dom());
        assert forall|i: int| 0 <= i < users.len() implies after.tracks[
            #[trigger] users[i]].frames == session.tracks[users[i]].frames.push(frames[i]) by {
            if i < fewer.len() {
                assert(fewer[i] == users[i]);
                assert(fewer.contains(users[i]));
                assert(rest[i] == frames[i]);
            }
        }
        assert forall|user_id: u64| !users.contains(user_id) implies #[trigger] after.tracks[
            user_id] == session.tracks[user_id] by {
            assert(users[users.len() - 1] == last);
            if fewer.contains(user_id) {
                let i = choose|i: int| 0 <= i < fewer.len() && fewer[i] == user_id;
                assert(users[i] == user_id);
            }
        }
    }
}

/// A tick in which every track gets its frame keeps all tracks in time with the session.
pub proof fn law_tick_keeps_alignment(
    session: SessionView,
    users: Seq<u64>,
    frames: Seq<Seq<u8>>,
)
    requires
        session.aligned(),
        session.tick_count < u64::MAX,
        users.len() == frames.len(),
        users.no_duplicates(),
        users.to_set() == session.tracks.dom(),
    ensures
        after_frames(session.after_tick(), users, frames).aligned(),
{
    let ticked = session.after_tick();
    assert forall|i: int| 0 <= i < users.len() implies ticked.tracks.contains_key(
        #[trigger] users[i],
    ) by {
        assert(users.to_set().contains(users[i]));
    }
    law_each_user_gets_one_frame(ticked, users, frames);
    let after = after_frames(ticked, users, frames);
    assert forall|user_id: u64| #[trigger] after.tracks.contains_key(
        user_id,
    ) implies after.tracks[user_id].frames.len() == after.tick_count by {
        assert(users.to_set().contains(user_id));
        let i = choose|i: int| 0 <= i < users.len() && users[i] == user_id;
        assert(after.tracks[users[i]].frames == session.tracks[users[i]].frames.push(frames[i]));
        assert(session.tracks.contains_key(user_id));
    }
}

/// A silent frame has 960 samples of 0 for each of two channels. One that a track is filled up
/// with is recorded like any other frame of the track.
pub proof fn law_silence_is_recorded_like_any_frame(
    start: BackfillView,
    session: SessionView,
    user_id: u64,
    frame: Seq<u8>,
)
    requires
        session.tracks.contains_key(user_id),
        session.tracks[user_id] == start.track,
    ensures
        silence().len() == 2 * 960,
        forall|i: int| 0 <= i < silence().len() ==> #[trigger] silence()[i] == 0,
        start.after_frame(frame).track == session.after_frame(user_id, frame).tracks[user_id],
        start.after_frame(frame).track.frames == start.track.record(frame).frames,
        start.after_frame(frame).track.pre_skip == start.track.pre_skip,
{
}

/// A user without a track who joins with one that was filled up is in time with the session, and
/// so is everybody else.
pub proof fn law_joining_keeps_alignment(session: SessionView, user_id: u64, track: TrackView)
    requires
        session.aligned(),
        !session.tracks.contains_key(user_id),
        track.frames.len() == session.tick_count,
    ensures
        session.after_adding(user_id, track).aligned(),
{
    let after = session.after_adding(user_id, track);
    assert forall|other: u64| #[trigger] after.tracks.contains_key(other) implies after.tracks[
        other].frames.len() == after.tick_count by {
        if other != user_id {
            assert(session.tracks.contains_key(other));
        }
    }
}

/// A report about a user keeps all tracks in time with the session. One about a user without a
/// track does so too once the user is named and given a track with a silent frame for each tick
/// that has passed.
pub proof fn law_reports_keep_alignment(
    session: SessionView,
    ssrc: u32,
    user_id: u64,
    name: Seq<char>,
    pre_skip: u16,
    frames: Seq<Seq<u8>>,
)
    requires
        session.aligned(),
        frames.len() == session.tick_count,
    ensures
        session.after_speaking(ssrc, user_id).aligned(),
        !session.tracks.contains_key(user_id) ==> session.after_speaking(
            ssrc,
            user_id,
        ).after_naming(user_id, name).after_adding(
            user_id,
            backfilled(session.backfill(pre_skip), frames).track,
        ).aligned(),
{
    let spoken = session.after_speaking(ssrc, user_id);
    let named = spoken.after_naming(user_id, name);
    assert(spoken.tracks == session.tracks && named.tracks == session.tracks);
    if !session.tracks.contains_key(user_id) {
        let start = session.backfill(pre_skip);
        law_backfill_reaches_the_present(start, session.tick_count, frames);
        law_joining_keeps_alignment(named, user_id, backfilled(start, frames).track);
    }
}

/// A user without a track joins with one that was filled up.
pub open spec fn join_step(
    before: SessionView,
    after: SessionView,
    user_id: u64,
    track: TrackView,
) -> bool {
    &&& !before.tracks.contains_key(user_id)
    &&& track.frames.len() == before.tick_count
    &&& after == before.after_adding(user_id, track)
}

/// A tick passes, in which `frames[k]` is recorded for `users[k]`, and every track gets a frame.
pub open spec fn tick_step(
    before: SessionView,
    after: SessionView,
    users: Seq<u64>,
    frames: Seq<Seq<u8>>,
) -> bool {
    &&& before.tick_count < u64::MAX
    &&& users.len() == frames.len()
    &&& users.no_duplicates()
    &&& users.to_set() == before.tracks.dom()
    &&& after == after_frames(before.after_tick(), users, frames)
}

/// A step of a session in which no frame is lost.
pub open spec fn lossless_step(before: SessionView, after: SessionView) -> bool {
    ||| exists|ssrc: u32, user_id: u64| after == #[trigger] before.after_speaking(ssrc, user_id)
    ||| exists|user_id: u64, name: Seq<char>|
        after == #[trigger] before.after_naming(user_id, name)
    ||| exists|user_id: u64, track: TrackView| #[trigger] join_step(before, after, user_id, track)
    ||| exists|users: Seq<u64>, frames: Seq<Seq<u8>>| #[trigger]
        tick_step(before, after, users, frames)
}

/// The states that a session goes through from its start on, where no frame is lost.
pub open spec fn lossless_run(states: Seq<SessionView>) -> bool {
    &&& states.len() > 0
    &&& states[0] == SessionView::start(states[0].guild_id, states[0].bitrate)
    &&& forall|i: int|
        0 <= i < states.len() - 1 ==> #[trigger] lossless_step(states[i], states[i + 1])
}

/// A user who joins after a frame was recorded for each tick that had passed takes a step in
/// which no frame is lost.
pub proof fn law_backfill_is_lossless(
    session: SessionView,
    user_id: u64,
    pre_skip: u16,
    frames: Seq<Seq<u8>>,
)
    requires
        !session.tracks.contains_key(user_id),
        frames.len() == session.tick_count,
    ensures
        backfilled(session.backfill(pre_skip), frames).missing == 0,
        lossless_step(
            session,
            session.after_adding(
                user_id,
                backfilled(session.backfill(pre_skip), frames).track,
            ),
        ),
{
    law_backfill_reaches_the_present(session.backfill(pre_skip), session.tick_count, frames);
    let track = backfilled(session.backfill(pre_skip), frames).track;
    assert(join_step(session, session.after_adding(user_id, track), user_id, track));
}

/// Where no frame is lost, whatever happens to a session keeps all tracks in time with it.
pub proof fn law_lossless_steps_keep_alignment(before: SessionView, after: SessionView)
    requires
        before.aligned(),
        lossless_step(before, after),
    ensures
        after.aligned(),
{
    if exists|user_id: u64, track: TrackView| #[trigger]
        join_step(before, after, user_id, track) {
        let (user_id, track) = choose|user_id: u64, track: TrackView| #[trigger]
            join_step(before, after, user_id, track);
        law_joining_keeps_alignment(before, user_id, track);
    } else if exists|users: Seq<u64>, frames: Seq<Seq<u8>>| #[trigger]
        tick_step(before, after, users, frames) {
        let (users, frames) = choose|users: Seq<u64>, frames: Seq<Seq<u8>>| #[trigger]
            tick_step(before, after, users, frames);
        law_tick_keeps_alignment(before, users, frames);
    } else {
        assert(after.tracks == before.tracks && after.tick_count == before.tick_count);
    }
}

/// A tick gives each of its users the frame that was recorded, behind those before it.
proof fn lemma_tick_appends(
    before: SessionView,
    after: SessionView,
    users: Seq<u64>,
    frames: Seq<Seq<u8>>,
)
    requires
        tick_step(before, after, users, frames),
    ensures
        after.tick_count == before.tick_count + 1,
        after.tracks.dom() == before.tracks.dom(),
        forall|k: int|
            0 <= k < users.len() ==> after.tracks[#[trigger] users[k]].frames
                == before.tracks[users[k]].frames.push(frames[k]),
        forall|k: int| 0 <= k < users.len() ==> before.tracks.contains_key(#[trigger] users[k]),
{
    assert forall|k: int| 0 <= k < users.len() implies before.tracks.contains_key(
        #[trigger] users[k],
    ) by {
        assert(users.to_set().contains(users[k]));
    }
    law_each_user_gets_one_frame(before.after_tick(), users, frames);
}

proof fn lemma_step_keeps_frames(before: SessionView, after: SessionView, user_id: u64)
    requires
        lossless_step(before, after),
        before.tracks.contains_key(user_id),
    ensures
        after.tracks.contains_key(user_id),
        before.tracks[user_id].frames.is_prefix_of(after.tracks[user_id].frames),
{
    if exists|users: Seq<u64>, frames: Seq<Seq<u8>>| #[trigger]
        tick_step(before, after, users, frames) {
        let (users, frames) = choose|users: Seq<u64>, frames: Seq<Seq<u8>>| #[trigger]
            tick_step(before, after, users, frames);
        lemma_tick_appends(before, after, users, frames);
        assert(after.tracks.dom().contains(user_id));
        assert(users.to_set().contains(user_id));
        let k = choose|k: int| 0 <= k < users.len() && users[k] == user_id;
        assert(after.tracks[users[k]].frames == before.tracks[users[k]].frames.push(frames[k]));
    } else {
        assert(after.tracks[user_id] == before.tracks[user_id]);
    }
}

proof fn lemma_run_keeps_frames(states: Seq<SessionView>, i: int, j: int, user_id: u64)
    requires
        lossless_run(states),
        0 <= i <= j < states.len(),
        states[i].tracks.contains_key(user_id),
    ensures
        states[j].tracks.contains_key(user_id),
        states[i].tracks[user_id].frames.is_prefix_of(states[j].tracks[user_id].frames),
    decreases j - i,
{
    if i < j {
        lemma_run_keeps_frames(states, i, j - 1, user_id);
        assert(lossless_step(states[j - 1], states[j - 1 + 1]));
        lemma_step_keeps_frames(states[j - 1], states[j], user_id);
    }
}

proof fn lemma_run_keeps_alignment(states: Seq<SessionView>, i: int)
    requires
        lossless_run(states),
        0 <= i < states.len(),
    ensures
        states[i].aligned(),
    decreases i,
{
    if i > 0 {
        lemma_run_keeps_alignment(states, i - 1);
        assert(lossless_step(states[i - 1], states[i - 1 + 1]));
        law_lossless_steps_keep_alignment(states[i - 1], states[i]);
    }
}

proof fn lemma_run_keeps_places(
    states: Seq<SessionView>,
    i: int,
    j: int,
    users: Seq<u64>,
    frames: Seq<Seq<u8>>,
    k: int,
)
    requires
        lossless_run(states),
        0 <= i < j < states.len(),
        tick_step(states[i], states[i + 1], users, frames),
        0 <= k < users.len(),
    ensures
        states[j].tracks.contains_key(users[k]),
        states[i].tick_count < states[j].tracks[users[k]].frames.len(),
        states[j].tracks[users[k]].frames[states[i].tick_count as int] == frames[k],
{
    let user_id = users[k];
    lemma_tick_appends(states[i], states[i + 1], users, frames);
    lemma_run_keeps_alignment(states, i);
    assert(states[i].tracks.contains_key(user_id));
    assert(states[i + 1].tracks.dom().contains(user_id));
    lemma_run_keeps_frames(states, i + 1, j, user_id);
    let (early, late) = (states[i + 1].tracks[user_id].frames, states[j].tracks[user_id].frames);
    let place = states[i].tick_count as int;
    assert(early == states[i].tracks[users[k]].frames.push(frames[k]));
    assert(late.take(early.len() as int)[place] == early[place]);
}

/// As long as no frame is lost, every track of a session has one frame for each tick since the
/// session's start, whenever its user joined. Frames stay where they are: a track only ever
/// grows, and what was recorded for a user in a tick stands at the place of that tick from then
/// on. So what was said at the same time stands at the same place in all files.
pub proof fn law_recordings_stay_in_time(states: Seq<SessionView>)
    requires
        lossless_run(states),
    ensures
        forall|i: int| 0 <= i < states.len() ==> (#[trigger] states[i]).aligned(),
        forall|i: int, user_id: u64|
            0 <= i < states.len() && #[trigger] states[i].tracks.contains_key(user_id)
                ==> states[i].tracks[user_id].frames.len() == states[i].tick_count,
        forall|i: int, j: int, user_id: u64|
            #![trigger states[i].tracks[user_id], states[j].tracks[user_id]]
            0 <= i <= j < states.len() && states[i].tracks.contains_key(user_id)
                ==> states[j].tracks.contains_key(user_id)
                && states[i].tracks[user_id].frames.is_prefix_of(states[j].tracks[user_id].frames),
        forall|i: int, j: int, users: Seq<u64>, frames: Seq<Seq<u8>>, k: int|
            #![trigger
                tick_step(states[i], states[i + 1], users, frames),
                states[j].tracks[users[k]]]
            0 <= i < j < states.len() && 0 <= k < users.len() && tick_step(
                states[i],
                states[i + 1],
                users,
                frames,
            ) ==> states[j].tracks.contains_key(users[k]) && states[i].tick_count
                < states[j].tracks[users[k]].frames.len()
                && states[j].tracks[users[k]].frames[states[i].tick_count as int] == frames[k],
{
    assert forall|i: int| 0 <= i < states.len() implies (#[trigger] states[i]).aligned() by {
        lemma_run_keeps_alignment(states, i);
    }
    assert forall|i: int, j: int, user_id: u64|
        #![trigger states[i].tracks[user_id], states[j].tracks[user_id]]
        #![trigger states[i].tracks.contains_key(user_id), states[j].tracks.contains_key(user_id)]
        0 <= i <= j < states.len() && states[i].tracks.contains_key(
            user_id,
        ) implies states[j].tracks.contains_key(user_id)
        && states[i].tracks[user_id].frames.is_prefix_of(states[j].tracks[user_id].frames) by {
        lemma_run_keeps_frames(states, i, j, user_id);
    }
    assert forall|i: int, j: int, users: Seq<u64>, frames: Seq<Seq<u8>>, k: int|
        #![trigger
            tick_step(states[i], states[i + 1], users, frames),
            states[j].tracks[users[k]]]
        #![trigger
            tick_step(states[i], states[i + 1], users, frames),
            states[j].tracks.contains_key(users[k])]
        0 <= i < j < states.len() && 0 <= k < users.len() && tick_step(
            states[i],
            states[i + 1],
            users,
            frames,
        ) implies states[j].tracks.contains_key(users[k]) && states[i].tick_count
        < states[j].tracks[users[k]].frames.len()
        && states[j].tracks[users[k]].frames[states[i].tick_count as int] == frames[k] by {
        lemma_run_keeps_places(states, i, j, users, frames, k);
    }
}

/// Whether a step is a tick.
pub open spec fn is_tick(before: SessionView, after: SessionView) -> bool {
    exists|users: Seq<u64>, frames: Seq<Seq<u8>>| #[trigger]
        tick_step(before, after, users, frames)
}

/// How many of the steps of a session are ticks.
pub open spec fn ticks_in(states: Seq<SessionView>) -> nat
    decreases states.len(),
{
    if states.len() <= 1 {
        0
    } else if is_tick(states[states.len() - 2], states[states.len() - 1]) {
        ticks_in(states.drop_last()) + 1
    } else {
        ticks_in(states.drop_last())
    }
}

/// The tick count of a session is the number of its ticks since the start, and a user who joins
/// lacks that many silent frames, whoever had a track in the meantime.
pub proof fn law_tick_count_is_the_number_of_ticks(states: Seq<SessionView>, pre_skip: u16)
    requires
        lossless_run(states),
    ensures
        states.last().tick_count == ticks_in(states),
        states.last().backfill(pre_skip).missing == ticks_in(states),
    decreases states.len(),
{
    if states.len() > 1 {
        let earlier = states.drop_last();
        let n = states.len() - 2;
        assert forall|i: int| 0 <= i < earlier.len() - 1 implies #[trigger] lossless_step(
            earlier[i],
            earlier[i + 1],
        ) by {
            assert(lossless_step(states[i], states[i + 1]));
        }
        law_tick_count_is_the_number_of_ticks(earlier, pre_skip);
        assert(lossless_step(states[n], states[n + 1]));
        assert(earlier.last() == states[n]);
        if is_tick(states[n], states[n + 1]) {
            let (users, frames) = choose|users: Seq<u64>, frames: Seq<Seq<u8>>| #[trigger]
                tick_step(states[n], states[n + 1], users, frames);
            lemma_tick_appends(states[n], states[n + 1], users, frames);
        }
    }
}

/// What a user's file holds for a tick is what was made of the user's sound in that tick, or of
/// silence where the user was not heard. `made_from` stands for the encoder: it says of samples
/// and a frame that the frame was made from them. No frame is lost; the files are closed in the
/// state `states[j]`, and the tick is the one that passes after `states[i]`.
pub proof fn law_sound_stands_where_it_was_heard(
    states: Seq<SessionView>,
    i: int,
    j: int,
    speaking: Map<u32, Option<Vec<i16>>>,
    users: Seq<u64>,
    frames: Seq<Seq<u8>>,
    k: int,
    made_from: spec_fn(Seq<i16>, Seq<u8>) -> bool,
)
    requires
        lossless_run(states),
        0 <= i < j < states.len(),
        tick_step(states[i], states[i + 1], users, frames),
        0 <= k < users.len(),
        made_from(states[i].sound_of(users[k], speaking), frames[k]),
    ensures
        states[j].tracks.contains_key(users[k]),
        states[i].tick_count < states[j].tracks[users[k]].frames.len(),
        made_from(
            states[i].sound_of(users[k], speaking),
            file_packets(
                states[j].tracks[users[k]].pre_skip,
                states[j].tracks[users[k]].frames,
            )[states[i].tick_count + 2].data,
        ),
{
    lemma_run_keeps_places(states, i, j, users, frames, k);
    let track = states[j].tracks[users[k]];
    law_file_holds_every_frame(track.pre_skip, track.frames);
    assert(file_packets(track.pre_skip, track.frames)[states[i].tick_count as int + 2].data
        == frames[k]);
}

/// What a user's file holds for the ticks before the user joined is what was made of silence. The
/// user joins after `states[i]`, with a track that was filled up with `frames`. No frame is lost;
/// the files are closed in the state `states[j]`.
pub proof fn law_silence_stands_before_a_user_joined(
    states: Seq<SessionView>,
    i: int,
    j: int,
    user_id: u64,
    pre_skip: u16,
    frames: Seq<Seq<u8>>,
    made_from: spec_fn(Seq<i16>, Seq<u8>) -> bool,
)
    requires
        lossless_run(states),
        0 <= i < j < states.len(),
        !states[i].tracks.contains_key(user_id),
        frames.len() == states[i].tick_count,
        states[i + 1] == states[i].after_adding(
            user_id,
            backfilled(states[i].backfill(pre_skip), frames).track,
        ),
        forall|q: int| 0 <= q < frames.len() ==> made_from(silence(), #[trigger] frames[q]),
    ensures
        states[j].tracks.contains_key(user_id),
        states[i].tick_count <= states[j].tracks[user_id].frames.len(),
        forall|q: int|
            0 <= q < states[i].tick_count ==> made_from(
                silence(),
                (#[trigger] file_packets(
                    states[j].tracks[user_id].pre_skip,
                    states[j].tracks[user_id].frames,
                )[q + 2]).data,
            ),
{
    law_backfill_reaches_the_present(states[i].backfill(pre_skip), states[i].tick_count, frames);
    assert(states[i + 1].tracks[user_id].frames == frames);
    lemma_run_keeps_frames(states, i + 1, j, user_id);
    let track = states[j].tracks[user_id];
    law_file_holds_every_frame(track.pre_skip, track.frames);
    assert forall|q: int| 0 <= q < states[i].tick_count implies made_from(
        silence(),
        (#[trigger] file_packets(track.pre_skip, track.frames)[q + 2]).data,
    ) by {
        assert(track.frames.take(frames.len() as int)[q] == frames[q]);
    }
}

/// Where no frame was lost, every file is as long as the session: behind the headers there is
/// one packet for each tick, the last one ends the stream, and it does so after 960 samples for
/// each tick.
pub proof fn law_files_are_as_long_as_the_session(session: SessionView, user_id: u64)
    requires
        session.aligned(),
        session.tick_count > 0,
        session.tracks.contains_key(user_id),
        session.tracks[user_id].file_fits(),
    ensures
        ({
            let track = session.tracks[user_id];
            let packets = file_packets(track.pre_skip, track.frames);
            &&& packets.len() == session.tick_count + 2
            &&& packets.last().end == PacketEnd::Stream
            &&& packets.last().absgp - track.pre_skip == 960 * session.tick_count
        }),
{
    law_granules_measure_time(session.tracks[user_id]);
}

// ---------------------------------------------------------------------------
// Sessions
// ---------------------------------------------------------------------------

/// What came on the stream that a user was last reported on is what is recorded for the user.
pub proof fn law_voice_follows_the_last_report(
    session: SessionView,
    ssrc: u32,
    user_id: u64,
    speaking: Map<u32, Option<Vec<i16>>>,
    decoded: Vec<i16>,
)
    requires
        speaking.contains_key(ssrc),
        speaking[ssrc] == Some(decoded),
    ensures
        session.after_speaking(ssrc, user_id).voice_of(user_id, speaking) == Some(decoded@),
{
}

/// A report about one user changes nothing of what is recorded for another.
pub proof fn law_reports_do_not_mix_users(
    session: SessionView,
    ssrc: u32,
    user_id: u64,
    other: u64,
    speaking: Map<u32, Option<Vec<i16>>>,
)
    requires
        other != user_id,
    ensures
        session.after_speaking(ssrc, user_id).voice_of(other, speaking) == session.voice_of(
            other,
            speaking,
        ),
        session.after_speaking(ssrc, user_id).tracks == session.tracks,
{
}

/// A report, a name, a new track, a tick, a frame, a track that is given up and the end leave a
/// session in its guild.
pub proof fn law_session_stays_in_its_guild(
    session: SessionView,
    ssrc: u32,
    user_id: u64,
    name: Seq<char>,
    track: TrackView,
    frame: Seq<u8>,
    users: Set<u64>,
)
    ensures
        session.after_speaking(ssrc, user_id).guild_id == session.guild_id,
        session.after_naming(user_id, name).guild_id == session.guild_id,
        session.after_adding(user_id, track).guild_id == session.guild_id,
        session.after_tick().guild_id == session.guild_id,
        session.after_frame(user_id, frame).guild_id == session.guild_id,
        session.after_giving_up(users).guild_id == session.guild_id,
        session.after_finalize().guild_id == session.guild_id,
{
}

/// How the tracks of a session are closed depends on its state alone. Of two sessions in the same
/// state, each user's file is the same in the end, and so are the bytes that were left of it.
pub proof fn law_closing_depends_on_the_state_alone(
    first: RecordingSession,
    second: RecordingSession,
    one: Seq<(u64, Vec<u8>)>,
    other: Seq<(u64, Vec<u8>)>,
    user_id: u64,
)
    requires
        first@ == second@,
        first@.closes(one),
        second@.closes(other),
        first@.tracks.contains_key(user_id),
    ensures
        exists|i: int, j: int|
            0 <= i < one.len() && 0 <= j < other.len() && (#[trigger] one[i]).0 == user_id && (
            #[trigger] other[j]).0 == user_id && one[i].1@ == other[j].1@
                && first@.tracks[user_id].taken + one[i].1@ == first@.tracks[user_id].file_bytes()
                && second@.tracks[user_id].taken + other[j].1@
                == second@.tracks[user_id].file_bytes(),
        closed_users(one).to_set() == closed_users(other).to_set(),
{
    assert(closed_users(one).to_set().contains(user_id));
    assert(closed_users(other).to_set().contains(user_id));
    let i = choose|i: int| 0 <= i < closed_users(one).len() && closed_users(one)[i] == user_id;
    let j = choose|j: int|
        0 <= j < closed_users(other).len() && closed_users(other)[j] == user_id;
    let taken = first@.tracks[user_id].taken;
    assert(one[i].0 == user_id && other[j].0 == user_id);
    assert(taken + one[i].1@ == taken + other[j].1@);
    assert(one[i].1@ =~= (taken + one[i].1@).skip(taken.len() as int));
    assert(other[j].1@ =~= (taken + other[j].1@).skip(taken.len() as int));
}

/// A session without tracks closes without output.
pub proof fn law_no_tracks_no_output(session: SessionView, rest: Seq<(u64, Vec<u8>)>)
    requires
        session.tracks == Map::<u64, TrackView>::empty(),
        session.closes(rest),
    ensures
        rest.len() == 0,
{
    if rest.len() > 0 {
        assert(closed_users(rest)[0] == rest[0].0);
        assert(closed_users(rest).to_set().contains(rest[0].0));
    }
}

/// Closing the tracks of a session a second time yields nothing.
pub proof fn law_tracks_are_closed_once(session: SessionView, rest: Seq<(u64, Vec<u8>)>)
    requires
        session.after_finalize().closes(rest),
    ensures
        rest.len() == 0,
{
    law_no_tracks_no_output(session.after_finalize(), rest);
}

} // verus!
