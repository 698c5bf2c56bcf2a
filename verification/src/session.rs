//! A recording session: who speaks on which stream, and the track of every user that spoke.

use std::collections::HashMap;

use vstd::prelude::*;

use crate::naming::{display_name, display_name_of, track_file_name};
use crate::track::{FRAME_SAMPLES, TrackView, UserTrack, encoded_frame, silent_pcm};

verus! {

broadcast use vstd::std_specs::hash::group_hash_axioms;

// ---------------------------------------------------------------------------
// The model
// ---------------------------------------------------------------------------

/// What a session knows and has recorded.
#[verifier::ext_equal]
pub struct SessionView {
    /// The user that last spoke on a stream.
    pub ssrc_to_user: Map<u32, u64>,
    /// The stream that a user last spoke on.
    pub user_id_to_ssrc: Map<u64, u32>,
    /// The name that a user goes by.
    pub user_id_to_name: Map<u64, Seq<char>>,
    /// The track of every user that spoke.
    pub tracks: Map<u64, TrackView>,
    /// Ticks of twenty milliseconds since the start.
    pub tick_count: u64,
    /// Bits per second.
    pub bitrate: i32,
    /// The guild that is recorded.
    pub guild_id: u64,
}

impl TrackView {
    /// The track with one more frame, and with the bytes handed out that this completed.
    pub open spec fn deliver(self, frame: Seq<u8>) -> TrackView {
        TrackView { taken: self.record(frame).open_bytes(), ..self.record(frame) }
    }
}

impl SessionView {
    /// A session in which nothing has happened.
    pub open spec fn start(guild_id: u64, bitrate: i32) -> SessionView {
        SessionView {
            ssrc_to_user: Map::empty(),
            user_id_to_ssrc: Map::empty(),
            user_id_to_name: Map::empty(),
            tracks: Map::empty(),
            tick_count: 0,
            bitrate,
            guild_id,
        }
    }

    /// The session once `user_id` is known to speak on the stream `ssrc`.
    pub open spec fn after_speaking(self, ssrc: u32, user_id: u64) -> SessionView {
        SessionView {
            ssrc_to_user: self.ssrc_to_user.insert(ssrc, user_id),
            user_id_to_ssrc: self.user_id_to_ssrc.insert(user_id, ssrc),
            ..self
        }
    }

    /// The session once `user_id` goes by `name`.
    pub open spec fn after_naming(self, user_id: u64, name: Seq<char>) -> SessionView {
        SessionView { user_id_to_name: self.user_id_to_name.insert(user_id, name), ..self }
    }

    /// The session with a track for `user_id`.
    pub open spec fn after_adding(self, user_id: u64, track: TrackView) -> SessionView {
        SessionView { tracks: self.tracks.insert(user_id, track), ..self }
    }

    /// The session one tick later.
    pub open spec fn after_tick(self) -> SessionView {
        SessionView { tick_count: (self.tick_count + 1) as u64, ..self }
    }

    /// The session once `frame` is recorded for `user_id`.
    pub open spec fn after_frame(self, user_id: u64, frame: Seq<u8>) -> SessionView {
        SessionView {
            tracks: self.tracks.insert(user_id, self.tracks[user_id].deliver(frame)),
            ..self
        }
    }

    /// The session without the tracks of `users`.
    pub open spec fn after_giving_up(self, users: Set<u64>) -> SessionView {
        SessionView { tracks: self.tracks.remove_keys(users), ..self }
    }

    /// The session once its tracks are closed.
    pub open spec fn after_finalize(self) -> SessionView {
        SessionView { tracks: Map::empty(), ..self }
    }

    /// Whether the stream and the name of `user_id` are known.
    pub open spec fn knows(self, user_id: u64) -> bool {
        self.user_id_to_ssrc.contains_key(user_id) && self.user_id_to_name.contains_key(user_id)
    }

    /// What was decoded for `user_id` in a tick: what came on the stream that the user last
    /// spoke on. `None` stands for silence.
    pub open spec fn voice_of(
        self,
        user_id: u64,
        speaking: Map<u32, Option<Vec<i16>>>,
    ) -> Option<Seq<i16>> {
        if self.user_id_to_ssrc.contains_key(user_id) && speaking.contains_key(
            self.user_id_to_ssrc[user_id],
        ) {
            match speaking[self.user_id_to_ssrc[user_id]] {
                Some(decoded) => Some(decoded@),
                None => None,
            }
        } else {
            None
        }
    }

    /// The samples that are recorded for `user_id` in a tick: what was decoded, or silence.
    pub open spec fn sound_of(
        self,
        user_id: u64,
        speaking: Map<u32, Option<Vec<i16>>>,
    ) -> Seq<i16> {
        match self.voice_of(user_id, speaking) {
            Some(decoded) => decoded,
            None => silence(),
        }
    }

    /// A new track that lacks a silent frame for each tick that has passed.
    pub open spec fn backfill(self, pre_skip: u16) -> BackfillView {
        BackfillView {
            track: TrackView { pre_skip, frames: Seq::empty(), taken: Seq::empty() },
            missing: self.tick_count as nat,
        }
    }

    /// Whether `rest` closes every track: there is an entry for each user that has one, and it
    /// makes what was handed out before into the user's whole file.
    pub open spec fn closes(self, rest: Seq<(u64, Vec<u8>)>) -> bool {
        &&& closed_users(rest).no_duplicates()
        &&& closed_users(rest).to_set() == self.tracks.dom()
        &&& forall|i: int|
            0 <= i < rest.len() ==> self.tracks[(#[trigger] rest[i]).0].taken + rest[i].1@
                == self.tracks[rest[i].0].file_bytes()
    }

    /// Whether every track has one frame for each tick of the session.
    pub open spec fn aligned(self) -> bool {
        forall|user_id: u64| #[trigger]
            self.tracks.contains_key(user_id) ==> self.tracks[user_id].frames.len()
                == self.tick_count
    }
}

/// The samples of a silent frame.
pub open spec fn silence() -> Seq<i16> {
    Seq::new(FRAME_SAMPLES as nat, |i: int| 0i16)
}

// ---------------------------------------------------------------------------
// Catching up
// ---------------------------------------------------------------------------

/// A new track, and how many silent frames it still lacks.
pub struct BackfillView {
    pub track: TrackView,
    pub missing: nat,
}

impl BackfillView {
    /// The backfill after a silent frame was recorded.
    pub open spec fn after_frame(self, frame: Seq<u8>) -> BackfillView {
        BackfillView { track: self.track.deliver(frame), missing: (self.missing - 1) as nat }
    }

    /// The backfill once it was given up.
    pub open spec fn given_up(self) -> BackfillView {
        BackfillView { missing: 0, ..self }
    }
}

/// A new track that is filled up with silence from the start of the session to the present.
pub struct Backfill {
    track: UserTrack,
    missing: u64,
}

impl View for Backfill {
    type V = BackfillView;

    closed spec fn view(&self) -> BackfillView {
        BackfillView { track: self.track@, missing: self.missing as nat }
    }
}

impl Backfill {
    pub closed spec fn wf(self) -> bool {
        self.track.wf()
    }

    /// Whether a silent frame is still missing.
    pub fn needs_frame(&self) -> (needs: bool)
        ensures
            needs == (self@.missing > 0),
    {
        self.missing > 0
    }

    /// The samples to encode for the next missing frame: silence, as long as one is missing.
    pub fn next_frame(&self) -> (pcm: Option<Vec<i16>>)
        ensures
            pcm is Some <==> self@.missing > 0,
            pcm matches Some(samples) ==> samples@ == silence(),
            pcm matches Some(samples) ==> samples@.len() == 1920 && forall|i: int|
                0 <= i < 1920 ==> #[trigger] samples@[i] == 0,
    {
        if self.missing > 0 {
            Some(silent_pcm())
        } else {
            None
        }
    }

    /// Whether the track has room for one more frame.
    pub fn has_room(&self) -> (room: bool)
        requires
            self.wf(),
        ensures
            forall|frame: Seq<u8>| (#[trigger] self@.track.record(frame)).open_fits() == room,
    {
        self.track.has_room()
    }

    /// Records what the encoder made of a silent frame, and hands out the bytes of the file that
    /// this completed. Where the encoder failed, the backfill is given up.
    pub fn write_silent_frame<E>(&mut self, output: Vec<u8>, encoded: Result<usize, E>) -> (result:
        Result<Vec<u8>, E>)
        requires
            old(self).wf(),
            old(self)@.missing > 0,
            encoded matches Ok(len) ==> old(self)@.track.record(
                encoded_frame(output@, len),
            ).open_fits(),
        ensures
            final(self).wf(),
            match encoded {
                Err(e) => result == Err::<Vec<u8>, E>(e) && final(self)@ == old(self)@.given_up(),
                Ok(len) => result matches Ok(bytes) && final(self)@ == old(self)@.after_frame(
                    encoded_frame(output@, len),
                ) && old(self)@.track.taken + bytes@ == final(self)@.track.taken,
            },
    {
        match self.track.write_frame(output, encoded) {
            Err(e) => {
                self.missing = 0;
                Err(e)
            },
            Ok(()) => {
                self.missing = self.missing - 1;
                Ok(self.track.take_output())
            },
        }
    }

    /// Gives the backfill up: its bytes could not be stored.
    pub fn give_up(&mut self)
        requires
            old(self).wf(),
        ensures
            final(self).wf(),
            final(self)@ == old(self)@.given_up(),
    {
        self.missing = 0;
    }
}

// ---------------------------------------------------------------------------
// The session
// ---------------------------------------------------------------------------

/// What is to be done once a user's speaking state was reported.
#[derive(Clone, Copy, Debug, PartialEq, Eq, Structural)]
pub enum SpeakingAction {
    /// Nothing: the report names no user.
    Ignore,
    /// Nothing more: the user has a track.
    Keep,
    /// A track is to be made for this user.
    CreateTrack(u64),
}

/// The frame that a user is to get in a tick.
pub struct PlannedFrame {
    pub user_id: u64,
    /// Whether the user was heard; otherwise the frame is silent.
    pub heard: bool,
    /// The samples to encode.
    pub pcm: Vec<i16>,
}

/// One recording session.
pub struct RecordingSession {
    ssrc_to_user: HashMap<u32, u64>,
    user_id_to_ssrc: HashMap<u64, u32>,
    user_id_to_name: HashMap<u64, String>,
    tracks: HashMap<u64, UserTrack>,
    tick_count: u64,
    bitrate: i32,
    guild_id: u64,
}

impl View for RecordingSession {
    type V = SessionView;

    closed spec fn view(&self) -> SessionView {
        SessionView {
            ssrc_to_user: self.ssrc_to_user@,
            user_id_to_ssrc: self.user_id_to_ssrc@,
            user_id_to_name: self.user_id_to_name@.map_values(|name: String| name@),
            tracks: self.tracks@.map_values(|track: UserTrack| track@),
            tick_count: self.tick_count,
            bitrate: self.bitrate,
            guild_id: self.guild_id,
        }
    }
}

impl RecordingSession {
    /// Every track is in order, and belongs to a user whose stream and name are known.
    pub closed spec fn wf(self) -> bool {
        &&& forall|user_id: u64| #[trigger]
            self.tracks@.contains_key(user_id) ==> self.tracks@[user_id].wf()
        &&& forall|user_id: u64| #[trigger]
            self.tracks@.contains_key(user_id) ==> self@.knows(user_id)
    }

    /// A session of the guild `guild_id` in which nothing has happened.
    pub fn new(guild_id: u64, bitrate: i32) -> (session: RecordingSession)
        ensures
            session.wf(),
            session@ == SessionView::start(guild_id, bitrate),
    {
        let session = RecordingSession {
            ssrc_to_user: HashMap::new(),
            user_id_to_ssrc: HashMap::new(),
            user_id_to_name: HashMap::new(),
            tracks: HashMap::new(),
            tick_count: 0,
            bitrate,
            guild_id,
        };
        assert(session@ =~= SessionView::start(guild_id, bitrate));
        session
    }

    /// The guild that is recorded.
    pub fn guild_id(&self) -> (guild_id: u64)
        ensures
            guild_id == self@.guild_id,
    {
        self.guild_id
    }

    /// Bits per second that the tracks are encoded with.
    pub fn bitrate(&self) -> (bitrate: i32)
        ensures
            bitrate == self@.bitrate,
    {
        self.bitrate
    }

    /// Ticks since the start.
    pub fn tick_count(&self) -> (ticks: u64)
        ensures
            ticks == self@.tick_count,
    {
        self.tick_count
    }

    /// A user is reported to speak on the stream `ssrc`.
    pub fn speaking_state_update(&mut self, ssrc: u32, user_id: Option<u64>) -> (action:
        SpeakingAction)
        requires
            old(self).wf(),
        ensures
            final(self).wf(),
            match user_id {
                None => action == SpeakingAction::Ignore && final(self)@ == old(self)@,
                Some(id) => {
                    &&& final(self)@ == old(self)@.after_speaking(ssrc, id)
                    &&& action == if old(self)@.tracks.contains_key(id) {
                        SpeakingAction::Keep
                    } else {
                        SpeakingAction::CreateTrack(id)
                    }
                },
            },
    {
        match user_id {
            None => SpeakingAction::Ignore,
            Some(id) => {
                self.ssrc_to_user.insert(ssrc, id);
                self.user_id_to_ssrc.insert(id, ssrc);
                assert(self@ =~= old(self)@.after_speaking(ssrc, id));
                if self.tracks.contains_key(&id) {
                    SpeakingAction::Keep
                } else {
                    SpeakingAction::CreateTrack(id)
                }
            },
        }
    }

    /// Notes the name that a user goes by, and gives the name of the user's file. `fetched` is
    /// what looking the user up gave.
    pub fn name_user(&mut self, user_id: u64, fetched: Option<String>) -> (file_name: String)
        requires
            old(self).wf(),
        ensures
            final(self).wf(),
            ({
                let name = display_name_of(
                    user_id,
                    match fetched {
                        Some(name) => Some(name@),
                        None => None,
                    },
                );
                &&& final(self)@ == old(self)@.after_naming(user_id, name)
                &&& file_name@ == name + ".opus"@
            }),
            fetched matches Some(given) ==> file_name@ == given@ + ".opus"@,
    {
        let name = display_name(user_id, fetched);
        let file_name = track_file_name(name.as_str());
        let ghost text = name@;
        self.user_id_to_name.insert(user_id, name);
        assert(self@ =~= old(self)@.after_naming(user_id, text));
        file_name
    }

    /// Starts a track that lacks a silent frame for each tick that has passed. `lookahead` is
    /// the delay of the track's encoder, or the reason why there is none.
    pub fn begin_track<E>(&self, lookahead: Result<u32, E>) -> (result: Result<Backfill, E>)
        ensures
            match lookahead {
                Err(e) => result == Err::<Backfill, E>(e),
                Ok(samples) => result matches Ok(backfill) && backfill.wf() && backfill@
                    == self@.backfill((samples % 0x1_0000) as u16) && backfill@.missing
                    == self@.tick_count && backfill@.track.frames.len() == 0
                    && backfill@.track.pre_skip == samples % 0x1_0000,
            },
    {
        match UserTrack::create(lookahead) {
            Err(e) => Err(e),
            Ok(track) => Ok(Backfill { track, missing: self.tick_count }),
        }
    }

    /// Takes in the track of a user that has none. It was filled up, or its backfill was given
    /// up.
    pub fn add_track(&mut self, user_id: u64, backfill: Backfill)
        requires
            old(self).wf(),
            old(self)@.knows(user_id),
            !old(self)@.tracks.contains_key(user_id),
            backfill.wf(),
            backfill@.missing == 0,
        ensures
            final(self).wf(),
            final(self)@ == old(self)@.after_adding(user_id, backfill@.track),
    {
        self.tracks.insert(user_id, backfill.track);
        assert(self@ =~= old(self)@.after_adding(user_id, backfill@.track));
    }

    /// The users that have a track, in no particular order.
    fn tracked_users(&self) -> (users: Vec<u64>)
        ensures
            users@.no_duplicates(),
            users@.to_set() == self@.tracks.dom(),
    {
        let mut users: Vec<u64> = Vec::new();
        for user_id in keys: self.tracks.keys()
            invariant
                users@ == keys.seq().unref().take(keys.index()),
                keys.index() == keys.seq().len() ==> users@ == keys.seq().unref(),
        {
            users.push(*user_id);
        }
        assert(self@.tracks.dom() =~= self.tracks@.dom());
        users
    }

    /// A tick of twenty milliseconds has passed. `speaking` holds what was decoded on each
    /// stream that was active in it. Every user that has a track gets one frame: what was
    /// decoded on the user's stream, or silence.
    pub fn voice_tick(&mut self, speaking: &HashMap<u32, Option<Vec<i16>>>) -> (plan: Vec<
        PlannedFrame,
    >)
        requires
            old(self).wf(),
            old(self)@.tick_count < u64::MAX,
        ensures
            final(self).wf(),
            final(self)@ == old(self)@.after_tick(),
            planned_users(plan@).no_duplicates(),
            planned_users(plan@).to_set() == old(self)@.tracks.dom(),
            forall|i: int|
                0 <= i < plan@.len() ==> {
                    &&& (#[trigger] plan@[i]).heard <==> old(self)@.voice_of(
                        plan@[i].user_id,
                        speaking@,
                    ) is Some
                    &&& plan@[i].pcm@ == old(self)@.sound_of(plan@[i].user_id, speaking@)
                },
            final(self)@.tick_count == old(self)@.tick_count + 1,
            final(self)@.tracks == old(self)@.tracks,
            forall|user_id: u64| #[trigger]
                old(self)@.tracks.contains_key(user_id) <==> exists|i: int|
                    0 <= i < plan@.len() && (#[trigger] plan@[i]).user_id == user_id,
            forall|i: int, j: int|
                0 <= i < j < plan@.len() ==> (#[trigger] plan@[i]).user_id != (
                #[trigger] plan@[j]).user_id,
            forall|i: int|
                0 <= i < plan@.len() ==> {
                    let user_id = (#[trigger] plan@[i]).user_id;
                    let ssrc = old(self)@.user_id_to_ssrc[user_id];
                    if old(self)@.user_id_to_ssrc.contains_key(user_id) && speaking@.contains_key(
                        ssrc,
                    ) && speaking@[ssrc] is Some {
                        plan@[i].heard && plan@[i].pcm@ == speaking@[ssrc]->0@
                    } else {
                        !plan@[i].heard && plan@[i].pcm@.len() == 1920 && forall|k: int|
                            0 <= k < 1920 ==> #[trigger] plan@[i].pcm@[k] == 0
                    }
                },
    {
        self.tick_count = self.tick_count + 1;
        assert(self@ =~= old(self)@.after_tick());
        let users = self.tracked_users();
        let mut plan: Vec<PlannedFrame> = Vec::new();
        for i in 0..users.len()
            invariant
                plan@.len() == i,
                self@ == old(self)@.after_tick(),
                planned_users(plan@) == users@.take(i as int),
                forall|j: int|
                    0 <= j < plan@.len() ==> {
                        &&& (#[trigger] plan@[j]).heard <==> old(self)@.voice_of(
                            plan@[j].user_id,
                            speaking@,
                        ) is Some
                        &&& plan@[j].pcm@ == old(self)@.sound_of(plan@[j].user_id, speaking@)
                    },
        {
            let user_id: u64 = users[i];
            let ghost before = plan@;
            let mut heard: bool = false;
            let mut pcm: Vec<i16> = Vec::new();
            if let Some(ssrc) = self.user_id_to_ssrc.get(&user_id) {
                if let Some(voice_data) = speaking.get(ssrc) {
                    if let Some(decoded) = voice_data {
                        pcm = decoded.clone();
                        heard = true;
                    }
                }
            }
            if !heard {
                pcm = silent_pcm();
            }
            plan.push(PlannedFrame { user_id, heard, pcm });
            assert(planned_users(plan@) =~= planned_users(before).push(user_id));
            assert(users@.take(i as int).push(user_id) =~= users@.take(i + 1));
        }
        assert(users@.take(users@.len() as int) =~= users@);
        proof {
            assert forall|user_id: u64| #[trigger]
                old(self)@.tracks.contains_key(user_id) <==> exists|i: int|
                    0 <= i < plan@.len() && (#[trigger] plan@[i]).user_id == user_id by {
                assert(users@.to_set().contains(user_id) <==> users@.contains(user_id));
                if users@.contains(user_id) {
                    let i = choose|i: int| 0 <= i < users@.len() && users@[i] == user_id;
                    assert(planned_users(plan@)[i] == plan@[i].user_id);
                }
                if exists|i: int| 0 <= i < plan@.len() && (#[trigger] plan@[i]).user_id == user_id {
                    let i = choose|i: int|
                        0 <= i < plan@.len() && (#[trigger] plan@[i]).user_id == user_id;
                    assert(planned_users(plan@)[i] == users@[i]);
                }
            }
            assert forall|i: int, j: int| 0 <= i < j < plan@.len() implies (
            #[trigger] plan@[i]).user_id != (#[trigger] plan@[j]).user_id by {
                assert(planned_users(plan@)[i] != planned_users(plan@)[j]);
            }
        }
        plan
    }

    /// Whether the track of `user_id` has room for one more frame.
    pub fn has_room(&self, user_id: u64) -> (room: bool)
        requires
            self.wf(),
            self@.tracks.contains_key(user_id),
        ensures
            forall|frame: Seq<u8>|
                (#[trigger] self@.tracks[user_id].record(frame)).open_fits() == room,
    {
        match self.tracks.get(&user_id) {
            Some(track) => track.has_room(),
            None => false,
        }
    }

    /// Records what the encoder made of a frame of `user_id`, and hands out the bytes of the
    /// user's file that this completed.
    pub fn write_frame<E>(
        &mut self,
        user_id: u64,
        output: Vec<u8>,
        encoded: Result<usize, E>,
    ) -> (result: Result<Vec<u8>, E>)
        requires
            old(self).wf(),
            old(self)@.tracks.contains_key(user_id),
            encoded matches Ok(len) ==> old(self)@.tracks[user_id].record(
                encoded_frame(output@, len),
            ).open_fits(),
        ensures
            final(self).wf(),
            match encoded {
                Err(e) => result == Err::<Vec<u8>, E>(e) && final(self)@ == old(self)@,
                Ok(len) => result matches Ok(bytes) && final(self)@ == old(self)@.after_frame(
                    user_id,
                    encoded_frame(output@, len),
                ) && old(self)@.tracks[user_id].taken + bytes@
                    == final(self)@.tracks[user_id].taken,
            },
            encoded matches Ok(len) ==> len <= output@.len()
                ==> final(self)@.tracks[user_id].frames == old(self)@.tracks[user_id].frames.push(
                output@.take(len as int),
            ),
            final(self)@.tracks.dom() == old(self)@.tracks.dom(),
            forall|other: u64|
                other != user_id ==> #[trigger] final(self)@.tracks[other]
                    == old(self)@.tracks[other],
    {
        let mut track = self.tracks.remove(&user_id).unwrap();
        let result = match track.write_frame(output, encoded) {
            Err(e) => Err(e),
            Ok(()) => Ok(track.take_output()),
        };
        self.tracks.insert(user_id, track);
        proof {
            if encoded is Ok {
                assert(self@ =~= old(self)@.after_frame(
                    user_id,
                    encoded_frame(output@, encoded->Ok_0),
                ));
            } else {
                assert(self@ =~= old(self)@);
            }
            assert(self@.tracks.dom() =~= old(self)@.tracks.dom());
        }
        result
    }

    /// Whether every track can be closed.
    pub fn can_finalize(&self) -> (can: bool)
        requires
            self.wf(),
        ensures
            can <==> forall|user_id: u64| #[trigger]
                self@.tracks.contains_key(user_id) ==> self@.tracks[user_id].file_fits(),
    {
        let users = self.tracked_users();
        for i in 0..users.len()
            invariant
                self.wf(),
                users@.to_set() == self@.tracks.dom(),
                forall|j: int|
                    0 <= j < i ==> self@.tracks[#[trigger] users@[j]].file_fits(),
        {
            let user_id: u64 = users[i];
            assert(users@.to_set().contains(user_id));
            if let Some(track) = self.tracks.get(&user_id) {
                if !track.can_finalize() {
                    return false;
                }
            }
        }
        proof {
            assert forall|user_id: u64| #[trigger] self@.tracks.contains_key(
                user_id,
            ) implies self@.tracks[user_id].file_fits() by {
                assert(users@.to_set().contains(user_id));
                let j = choose|j: int| 0 <= j < users@.len() && users@[j] == user_id;
                assert(self@.tracks[users@[j]].file_fits());
            }
        }
        true
    }

    /// Gives up the tracks that can no longer be closed, since the page numbers of their files
    /// have run out, and tells whose they were. All others can be closed.
    pub fn give_up_full_tracks(&mut self) -> (users: Vec<u64>)
        requires
            old(self).wf(),
        ensures
            final(self).wf(),
            final(self)@ == old(self)@.after_giving_up(users@.to_set()),
            users@.no_duplicates(),
            forall|user_id: u64| #[trigger]
                users@.contains(user_id) <==> old(self)@.tracks.contains_key(user_id)
                    && !old(self)@.tracks[user_id].file_fits(),
            forall|user_id: u64| #[trigger]
                final(self)@.tracks.contains_key(user_id)
                    ==> final(self)@.tracks[user_id].file_fits(),
    {
        let owners = self.tracked_users();
        let mut users: Vec<u64> = Vec::new();
        for i in 0..owners.len()
            invariant
                old(self).wf(),
                owners@.no_duplicates(),
                owners@.to_set() == old(self)@.tracks.dom(),
                self.ssrc_to_user == old(self).ssrc_to_user,
                self.user_id_to_ssrc == old(self).user_id_to_ssrc,
                self.user_id_to_name == old(self).user_id_to_name,
                self.tick_count == old(self).tick_count,
                self.bitrate == old(self).bitrate,
                self.guild_id == old(self).guild_id,
                self.tracks@ == old(self).tracks@.remove_keys(users@.to_set()),
                users@.no_duplicates(),
                forall|user_id: u64| #[trigger]
                    users@.contains(user_id) <==> owners@.take(i as int).contains(user_id)
                        && !old(self)@.tracks[user_id].file_fits(),
        {
            broadcast use vstd::seq_lib::group_seq_properties;

            let user_id: u64 = owners[i];
            proof {
                assert(owners@.to_set().contains(user_id));
                assert(old(self)@.tracks.contains_key(user_id));
                assert(!owners@.take(i as int).contains(user_id));
                assert(!users@.to_set().contains(user_id));
                assert(owners@.take(i as int).push(user_id) =~= owners@.take(i + 1));
            }
            let full = match self.tracks.get(&user_id) {
                Some(track) => !track.can_finalize(),
                None => false,
            };
            if full {
                let ghost before = users@;
                self.tracks.remove(&user_id);
                users.push(user_id);
                proof {
                    before.lemma_push_to_set_commute(user_id);
                    assert(self.tracks@ =~= old(self).tracks@.remove_keys(users@.to_set()));
                }
            }
        }
        proof {
            assert(owners@.take(owners@.len() as int) =~= owners@);
            assert forall|user_id: u64| #[trigger] users@.contains(user_id) <==> old(
                self,
            )@.tracks.contains_key(user_id) && !old(self)@.tracks[user_id].file_fits() by {
                assert(owners@.to_set().contains(user_id) <==> owners@.contains(user_id));
            }
            assert(self@ =~= old(self)@.after_giving_up(users@.to_set()));
            assert forall|user_id: u64| #[trigger] self@.tracks.contains_key(
                user_id,
            ) implies self@.tracks[user_id].file_fits() by {
                assert(users@.to_set().contains(user_id) <==> users@.contains(user_id));
            }
        }
        users
    }

    /// Closes every track, and hands out the bytes that were left of each user's file. A session
    /// whose tracks are closed has none.
    pub fn finalize(&mut self) -> (rest: Vec<(u64, Vec<u8>)>)
        requires
            old(self).wf(),
            forall|user_id: u64| #[trigger]
                old(self)@.tracks.contains_key(user_id)
                    ==> old(self)@.tracks[user_id].file_fits(),
        ensures
            final(self).wf(),
            final(self)@ == old(self)@.after_finalize(),
            old(self)@.closes(rest@),
            final(self)@.tracks == Map::<u64, TrackView>::empty(),
            forall|user_id: u64| #[trigger]
                old(self)@.tracks.contains_key(user_id) <==> exists|i: int|
                    0 <= i < rest@.len() && (#[trigger] rest@[i]).0 == user_id,
            forall|i: int, j: int|
                0 <= i < j < rest@.len() ==> (#[trigger] rest@[i]).0 != (#[trigger] rest@[j]).0,
            forall|i: int|
                0 <= i < rest@.len() ==> old(self)@.tracks[(#[trigger] rest@[i]).0].taken
                    + rest@[i].1@ == old(self)@.tracks[rest@[i].0].file_bytes(),
    {
        let users = self.tracked_users();
        let mut rest: Vec<(u64, Vec<u8>)> = Vec::new();
        for i in 0..users.len()
            invariant
                old(self).wf(),
                forall|user_id: u64| #[trigger]
                    old(self)@.tracks.contains_key(user_id)
                        ==> old(self)@.tracks[user_id].file_fits(),
                users@.no_duplicates(),
                users@.to_set() == old(self)@.tracks.dom(),
                self.ssrc_to_user == old(self).ssrc_to_user,
                self.user_id_to_ssrc == old(self).user_id_to_ssrc,
                self.user_id_to_name == old(self).user_id_to_name,
                self.tick_count == old(self).tick_count,
                self.bitrate == old(self).bitrate,
                self.guild_id == old(self).guild_id,
                self.tracks@ == old(self).tracks@.remove_keys(users@.take(i as int).to_set()),
                closed_users(rest@) == users@.take(i as int),
                forall|j: int|
                    0 <= j < rest@.len() ==> old(self)@.tracks[(#[trigger] rest@[j]).0].taken
                        + rest@[j].1@ == old(self)@.tracks[rest@[j].0].file_bytes(),
        {
            let user_id: u64 = users[i];
            let ghost before = rest@;
            proof {
                assert(users@.to_set().contains(user_id));
                assert(old(self)@.tracks.contains_key(user_id));
                assert(!users@.take(i as int).to_set().contains(user_id));
            }
            let track = self.tracks.remove(&user_id).unwrap();
            rest.push((user_id, track.finalize()));
            proof {
                assert(closed_users(rest@) =~= closed_users(before).push(user_id));
                assert(users@.take(i as int).push(user_id) =~= users@.take(i + 1));
                users@.take(i as int).lemma_push_to_set_commute(user_id);
                assert(self.tracks@ =~= old(self).tracks@.remove_keys(
                    users@.take(i + 1).to_set(),
                ));
            }
        }
        assert(users@.take(users@.len() as int) =~= users@);
        assert(self@.tracks =~= Map::empty());
        assert(self@ =~= old(self)@.after_finalize());
        proof {
            law_each_file_is_closed_once(old(self)@, rest@);
        }
        rest
    }
}

/// Every user that is recorded was reported on a stream and has a name.
pub proof fn law_recorded_users_are_known(session: RecordingSession, user_id: u64)
    requires
        session.wf(),
        session@.tracks.contains_key(user_id),
    ensures
        session@.knows(user_id),
{
    assert(session.tracks@.contains_key(user_id));
}

// ---------------------------------------------------------------------------
// What each step does
// ---------------------------------------------------------------------------

/// A session starts at tick 0, with nobody known and nothing recorded.
pub proof fn law_session_starts_empty(guild_id: u64, bitrate: i32, ssrc: u32, user_id: u64)
    ensures
        SessionView::start(guild_id, bitrate).tick_count == 0,
        SessionView::start(guild_id, bitrate).bitrate == bitrate,
        SessionView::start(guild_id, bitrate).guild_id == guild_id,
        !SessionView::start(guild_id, bitrate).ssrc_to_user.contains_key(ssrc),
        !SessionView::start(guild_id, bitrate).user_id_to_ssrc.contains_key(user_id),
        !SessionView::start(guild_id, bitrate).user_id_to_name.contains_key(user_id),
        !SessionView::start(guild_id, bitrate).tracks.contains_key(user_id),
{
}

/// A report ties a user and a stream to each other, and touches no other user, no other stream,
/// no name and nothing that was recorded.
pub proof fn law_report_ties_user_and_stream(
    session: SessionView,
    ssrc: u32,
    user_id: u64,
    other_ssrc: u32,
    other: u64,
)
    requires
        other_ssrc != ssrc,
        other != user_id,
    ensures
        ({
            let after = session.after_speaking(ssrc, user_id);
            &&& after.ssrc_to_user.contains_key(ssrc) && after.ssrc_to_user[ssrc] == user_id
            &&& after.user_id_to_ssrc.contains_key(user_id)
            &&& after.user_id_to_ssrc[user_id] == ssrc
            &&& after.ssrc_to_user.contains_key(other_ssrc) <==> session.ssrc_to_user.contains_key(
                other_ssrc,
            )
            &&& after.ssrc_to_user[other_ssrc] == session.ssrc_to_user[other_ssrc]
            &&& after.user_id_to_ssrc.contains_key(other) <==> session.user_id_to_ssrc.contains_key(
                other,
            )
            &&& after.user_id_to_ssrc[other] == session.user_id_to_ssrc[other]
            &&& after.user_id_to_name == session.user_id_to_name
            &&& after.tracks == session.tracks
            &&& after.tick_count == session.tick_count
            &&& after.bitrate == session.bitrate
            &&& after.guild_id == session.guild_id
        }),
{
}

/// A name is noted for its user alone, letter by letter. A user who was reported and named is
/// known, and no other is.
pub proof fn law_name_is_noted(
    session: SessionView,
    user_id: u64,
    name: Seq<char>,
    other: u64,
    ssrc: u32,
)
    requires
        other != user_id,
    ensures
        ({
            let after = session.after_naming(user_id, name);
            &&& after.user_id_to_name.contains_key(user_id)
            &&& after.user_id_to_name[user_id] == name
            &&& after.user_id_to_name.contains_key(other) <==> session.user_id_to_name.contains_key(
                other,
            )
            &&& after.user_id_to_name[other] == session.user_id_to_name[other]
            &&& after.ssrc_to_user == session.ssrc_to_user
            &&& after.user_id_to_ssrc == session.user_id_to_ssrc
            &&& after.tracks == session.tracks
            &&& after.tick_count == session.tick_count
            &&& after.bitrate == session.bitrate
            &&& after.guild_id == session.guild_id
        }),
        session.after_speaking(ssrc, user_id).after_naming(user_id, name).knows(user_id),
        session.knows(user_id) <==> session.user_id_to_ssrc.contains_key(user_id)
            && session.user_id_to_name.contains_key(user_id),
{
}

/// A track that is added is the user's, as it is, and touches nobody else's.
pub proof fn law_track_is_added(session: SessionView, user_id: u64, track: TrackView, other: u64)
    requires
        other != user_id,
    ensures
        ({
            let after = session.after_adding(user_id, track);
            &&& after.tracks.contains_key(user_id) && after.tracks[user_id] == track
            &&& after.tracks.contains_key(other) <==> session.tracks.contains_key(other)
            &&& after.tracks[other] == session.tracks[other]
            &&& after.tick_count == session.tick_count
            &&& after.bitrate == session.bitrate
            &&& after.guild_id == session.guild_id
            &&& after.ssrc_to_user == session.ssrc_to_user
            &&& after.user_id_to_ssrc == session.user_id_to_ssrc
            &&& after.user_id_to_name == session.user_id_to_name
        }),
{
}

/// Every tick counts, whether or not anybody has a track yet, and does nothing else.
pub proof fn law_every_tick_counts(session: SessionView)
    requires
        session.tick_count < u64::MAX,
    ensures
        session.after_tick().tick_count == session.tick_count + 1,
        session.after_tick().tracks == session.tracks,
        session.after_tick().bitrate == session.bitrate,
        session.after_tick().guild_id == session.guild_id,
        session.after_tick().ssrc_to_user == session.ssrc_to_user,
        session.after_tick().user_id_to_ssrc == session.user_id_to_ssrc,
        session.after_tick().user_id_to_name == session.user_id_to_name,
{
}

/// A session after `n` ticks.
pub open spec fn after_ticks(session: SessionView, n: nat) -> SessionView
    decreases n,
{
    if n == 0 {
        session
    } else {
        after_ticks(session, (n - 1) as nat).after_tick()
    }
}

/// After any number of ticks, a user who joins lacks as many silent frames more.
pub proof fn law_late_users_lack_all_ticks(session: SessionView, n: nat, pre_skip: u16)
    requires
        session.tick_count + n <= u64::MAX,
    ensures
        after_ticks(session, n).tick_count == session.tick_count + n,
        after_ticks(session, n).tracks == session.tracks,
        after_ticks(session, n).backfill(pre_skip).missing == session.tick_count + n,
    decreases n,
{
    if n > 0 {
        law_late_users_lack_all_ticks(session, (n - 1) as nat, pre_skip);
    }
}

/// A new track has the delay of its encoder, no frame and nothing handed out. It lacks one frame
/// for each tick, one less with each frame that is recorded, and none once it is given up.
pub proof fn law_backfill_counts_down(
    session: SessionView,
    pre_skip: u16,
    start: BackfillView,
    frame: Seq<u8>,
)
    ensures
        session.backfill(pre_skip).missing == session.tick_count,
        session.backfill(pre_skip).track.pre_skip == pre_skip,
        session.backfill(pre_skip).track.frames.len() == 0,
        session.backfill(pre_skip).track.taken.len() == 0,
        start.missing > 0 ==> start.after_frame(frame).missing == start.missing - 1,
        start.after_frame(frame).track.frames == start.track.frames.push(frame),
        start.after_frame(frame).track.pre_skip == start.track.pre_skip,
        start.after_frame(frame).track.taken == start.after_frame(frame).track.open_bytes(),
        start.given_up().missing == 0,
        start.given_up().track == start.track,
{
}

/// A frame is recorded behind those that its user has, and what it completes is handed out. It
/// touches nobody else's track and nothing else of the session.
pub proof fn law_frame_goes_to_its_user(
    session: SessionView,
    user_id: u64,
    frame: Seq<u8>,
    other: u64,
)
    requires
        session.tracks.contains_key(user_id),
        other != user_id,
    ensures
        ({
            let after = session.after_frame(user_id, frame);
            &&& after.tracks.contains_key(user_id)
            &&& after.tracks[user_id].frames == session.tracks[user_id].frames.push(frame)
            &&& after.tracks[user_id].pre_skip == session.tracks[user_id].pre_skip
            &&& after.tracks[user_id].taken == after.tracks[user_id].open_bytes()
            &&& after.tracks.contains_key(other) <==> session.tracks.contains_key(other)
            &&& after.tracks[other] == session.tracks[other]
            &&& after.tick_count == session.tick_count
            &&& after.bitrate == session.bitrate
            &&& after.guild_id == session.guild_id
            &&& after.ssrc_to_user == session.ssrc_to_user
            &&& after.user_id_to_ssrc == session.user_id_to_ssrc
            &&& after.user_id_to_name == session.user_id_to_name
        }),
{
}

/// Tracks that are given up are gone, and the others are as they were. Of a closed session all
/// are gone. Nothing else changes.
pub proof fn law_tracks_go(session: SessionView, users: Set<u64>, user_id: u64)
    ensures
        users.contains(user_id) ==> !session.after_giving_up(users).tracks.contains_key(user_id),
        !users.contains(user_id) ==> (session.after_giving_up(users).tracks.contains_key(user_id)
            <==> session.tracks.contains_key(user_id)),
        !users.contains(user_id) && session.tracks.contains_key(user_id)
            ==> session.after_giving_up(users).tracks[user_id] == session.tracks[user_id],
        session.after_giving_up(users).tick_count == session.tick_count,
        session.after_giving_up(users).bitrate == session.bitrate,
        session.after_giving_up(users).guild_id == session.guild_id,
        session.after_giving_up(users).ssrc_to_user == session.ssrc_to_user,
        session.after_giving_up(users).user_id_to_ssrc == session.user_id_to_ssrc,
        session.after_giving_up(users).user_id_to_name == session.user_id_to_name,
        !session.after_finalize().tracks.contains_key(user_id),
        session.after_finalize().tick_count == session.tick_count,
        session.after_finalize().bitrate == session.bitrate,
        session.after_finalize().guild_id == session.guild_id,
        session.after_finalize().ssrc_to_user == session.ssrc_to_user,
        session.after_finalize().user_id_to_ssrc == session.user_id_to_ssrc,
        session.after_finalize().user_id_to_name == session.user_id_to_name,
{
}

/// What is recorded for a user in a tick is what was decoded on the user's stream, sample by
/// sample.
pub proof fn law_decoded_sound_is_recorded_as_it_came(
    session: SessionView,
    user_id: u64,
    speaking: Map<u32, Option<Vec<i16>>>,
    ssrc: u32,
    decoded: Vec<i16>,
)
    requires
        session.user_id_to_ssrc.contains_key(user_id),
        session.user_id_to_ssrc[user_id] == ssrc,
        speaking.contains_key(ssrc),
        speaking[ssrc] == Some(decoded),
    ensures
        session.voice_of(user_id, speaking) == Some(decoded@),
        session.sound_of(user_id, speaking).len() == decoded@.len(),
        forall|i: int|
            0 <= i < decoded@.len() ==> #[trigger] session.sound_of(user_id, speaking)[i]
                == decoded@[i],
{
}

/// What is recorded for a user whose stream is not known, was not active in a tick, or carried
/// nothing that could be decoded, is silence: 1920 samples of 0.
pub proof fn law_unheard_users_are_silent(
    session: SessionView,
    user_id: u64,
    speaking: Map<u32, Option<Vec<i16>>>,
)
    requires
        session.user_id_to_ssrc.contains_key(user_id) && speaking.contains_key(
            session.user_id_to_ssrc[user_id],
        ) ==> speaking[session.user_id_to_ssrc[user_id]] is None,
    ensures
        session.voice_of(user_id, speaking) is None,
        session.sound_of(user_id, speaking).len() == 1920,
        forall|i: int| 0 <= i < 1920 ==> #[trigger] session.sound_of(user_id, speaking)[i] == 0,
{
}

/// Closing a session gives each user who has a track one entry, gives nobody else one, and each
/// entry makes what was handed out before into the whole file.
pub proof fn law_each_file_is_closed_once(session: SessionView, rest: Seq<(u64, Vec<u8>)>)
    ensures
        session.closes(rest) <==> {
            &&& forall|user_id: u64| #[trigger]
                session.tracks.contains_key(user_id) <==> exists|i: int|
                    0 <= i < rest.len() && (#[trigger] rest[i]).0 == user_id
            &&& forall|i: int, j: int|
                0 <= i < j < rest.len() ==> (#[trigger] rest[i]).0 != (#[trigger] rest[j]).0
            &&& forall|i: int|
                0 <= i < rest.len() ==> session.tracks[(#[trigger] rest[i]).0].taken + rest[i].1@
                    == session.tracks[rest[i].0].file_bytes()
        },
{
    let users = closed_users(rest);
    assert forall|user_id: u64| #[trigger]
        users.to_set().contains(user_id) <==> exists|i: int|
            0 <= i < rest.len() && (#[trigger] rest[i]).0 == user_id by {
        if users.to_set().contains(user_id) {
            let i = choose|i: int| 0 <= i < users.len() && users[i] == user_id;
            assert(rest[i].0 == user_id);
        }
        if exists|i: int| 0 <= i < rest.len() && (#[trigger] rest[i]).0 == user_id {
            let i = choose|i: int| 0 <= i < rest.len() && (#[trigger] rest[i]).0 == user_id;
            assert(users[i] == user_id);
        }
    }
    if session.closes(rest) {
        assert forall|user_id: u64| #[trigger]
            session.tracks.contains_key(user_id) <==> exists|i: int|
                0 <= i < rest.len() && (#[trigger] rest[i]).0 == user_id by {
            assert(users.to_set().contains(user_id) <==> session.tracks.dom().contains(user_id));
        }
        assert forall|i: int, j: int| 0 <= i < j < rest.len() implies (#[trigger] rest[i]).0 != (
        #[trigger] rest[j]).0 by {
            assert(users[i] != users[j]);
        }
    }
    if (forall|user_id: u64| #[trigger]
        session.tracks.contains_key(user_id) <==> exists|i: int|
            0 <= i < rest.len() && (#[trigger] rest[i]).0 == user_id) && (forall|i: int, j: int|
        0 <= i < j < rest.len() ==> (#[trigger] rest[i]).0 != (#[trigger] rest[j]).0) {
        assert forall|user_id: u64| users.to_set().contains(
            user_id,
        ) == session.tracks.dom().contains(user_id) by {
            assert(session.tracks.contains_key(user_id) == session.tracks.dom().contains(user_id));
        }
        assert(users.to_set() =~= session.tracks.dom());
        assert(users.no_duplicates()) by {
            assert forall|i: int, j: int|
                0 <= i < users.len() && 0 <= j < users.len() && i != j implies users[i]
                != users[j] by {
                assert(users[i] == rest[i].0 && users[j] == rest[j].0);
            }
        }
    }
}

/// The users of a plan are those of its frames, in order.
pub proof fn law_plan_names_its_users(plan: Seq<PlannedFrame>, rest: Seq<(u64, Vec<u8>)>)
    ensures
        planned_users(plan).len() == plan.len(),
        forall|i: int| 0 <= i < plan.len() ==> #[trigger] planned_users(plan)[i] == plan[i].user_id,
        closed_users(rest).len() == rest.len(),
        forall|i: int| 0 <= i < rest.len() ==> #[trigger] closed_users(rest)[i] == rest[i].0,
{
}

/// The users that get a frame, in the order in which they get it.
pub open spec fn planned_users(plan: Seq<PlannedFrame>) -> Seq<u64> {
    plan.map_values(|frame: PlannedFrame| frame.user_id)
}

/// The users whose files were closed, in the order in which they were.
pub open spec fn closed_users(rest: Seq<(u64, Vec<u8>)>) -> Seq<u64> {
    rest.map_values(|entry: (u64, Vec<u8>)| entry.0)
}

} // verus!
