//! Who is in the voice channel, and whether that starts or ends a recording.

use vstd::prelude::*;

verus! {

/// Bits per second where the channel tells none.
pub const DEFAULT_BITRATE: i32 = 64000;

/// Where a user of the guild is heard.
#[derive(Clone, Copy, Debug, PartialEq, Eq, Structural)]
pub struct VoicePresence {
    pub user_id: u64,
    pub channel_id: Option<u64>,
}

/// What is to be done about the recording.
#[derive(Clone, Copy, Debug, PartialEq, Eq, Structural)]
pub enum RecordingAction {
    /// A session is to be started.
    Start,
    /// The session is to be ended.
    End,
    /// Things stay as they are.
    Keep,
}

impl VoicePresence {
    /// Whether this is a user in the channel `target`, other than the bot itself.
    pub open spec fn counts(self, target: u64, bot_id: u64) -> bool {
        self.channel_id == Some(target) && self.user_id != bot_id
    }
}

/// How many of `states` are users in the channel `target`, other than the bot itself.
pub open spec fn user_count(states: Seq<VoicePresence>, target: u64, bot_id: u64) -> nat {
    states.filter(|state: VoicePresence| state.counts(target, bot_id)).len()
}

/// How many users are in the channel `target`, other than the bot itself. Of a guild that is not
/// known, none is.
pub open spec fn users_of(
    states: Option<Seq<VoicePresence>>,
    target: u64,
    bot_id: u64,
) -> nat {
    match states {
        Some(states) => user_count(states, target, bot_id),
        None => 0,
    }
}

/// Whether any of `states` is a user in the channel `target`, other than the bot itself.
pub open spec fn any_user(states: Seq<VoicePresence>, target: u64, bot_id: u64) -> bool {
    exists|i: int| 0 <= i < states.len() && #[trigger] states[i].counts(target, bot_id)
}

/// Whether the guild is known to have a user in the channel `target`, other than the bot itself.
pub open spec fn occupied(
    states: Option<Seq<VoicePresence>>,
    target: u64,
    bot_id: u64,
) -> bool {
    match states {
        Some(states) => any_user(states, target, bot_id),
        None => false,
    }
}

/// What the number of users in the guild `guild_id` asks for. `recording` is the guild that a
/// session is on in, where one is. The first user starts a session, in whatever guild; only the
/// last one to leave in the session's own guild ends it.
pub open spec fn action_for(guild_id: u64, users: nat, recording: Option<u64>) -> RecordingAction {
    match recording {
        None => if users > 0 {
            RecordingAction::Start
        } else {
            RecordingAction::Keep
        },
        Some(own) => if own == guild_id && users == 0 {
            RecordingAction::End
        } else {
            RecordingAction::Keep
        },
    }
}

/// The guild that a session is on in, once `action` is done for the guild `guild_id`.
pub open spec fn recording_after(
    guild_id: u64,
    recording: Option<u64>,
    action: RecordingAction,
) -> Option<u64> {
    match action {
        RecordingAction::Start => Some(guild_id),
        RecordingAction::End => None,
        RecordingAction::Keep => recording,
    }
}

/// A look at a guild: its number, and how many users are in the channel there.
pub struct Headcount {
    pub guild_id: u64,
    pub users: nat,
}

/// The guild that a session is on in, after what each of `counts` asks for was done in turn.
pub open spec fn recording_after_all(recording: Option<u64>, counts: Seq<Headcount>) -> Option<u64>
    decreases counts.len(),
{
    if counts.len() == 0 {
        recording
    } else {
        let before = recording_after_all(recording, counts.drop_last());
        let count = counts.last();
        recording_after(count.guild_id, before, action_for(count.guild_id, count.users, before))
    }
}

/// The number of users in the channel `target`, other than the bot itself.
fn count_users(states: &Vec<VoicePresence>, target: u64, bot_id: u64) -> (count: usize)
    ensures
        count == user_count(states@, target, bot_id),
{
    let ghost counted = |state: VoicePresence| state.counts(target, bot_id);
    let mut count: usize = 0;
    for i in 0..states.len()
        invariant
            counted == |state: VoicePresence| state.counts(target, bot_id),
            count == states@.take(i as int).filter(counted).len(),
            count <= i,
    {
        let state = states[i];
        proof {
            reveal(Seq::filter);
            assert(states@.take(i + 1).drop_last() =~= states@.take(i as int));
        }
        let in_target = match state.channel_id {
            Some(channel_id) => channel_id == target,
            None => false,
        };
        if in_target && state.user_id != bot_id {
            count = count + 1;
        }
    }
    assert(states@.take(states@.len() as int) =~= states@);
    count
}

/// The number of users in the channel `target`, other than the bot itself. `states` are the
/// voice states of the guild, where the guild is known.
pub fn current_users(states: &Option<Vec<VoicePresence>>, target: u64, bot_id: u64) -> (count:
    usize)
    ensures
        count == users_of(
            match states {
                Some(states) => Some(states@),
                None => None,
            },
            target,
            bot_id,
        ),
        count > 0 <==> (states matches Some(known) && exists|i: int|
            0 <= i < known@.len() && (#[trigger] known@[i]).channel_id == Some(target)
                && known@[i].user_id != bot_id),
{
    match states {
        Some(states) => {
            proof {
                law_users_are_found(states@, target, bot_id);
            }
            count_users(states, target, bot_id)
        },
        None => 0,
    }
}

/// What the number of users in the guild `guild_id` asks for. `recording` is the guild that a
/// session is on in, where one is.
pub fn recording_action(guild_id: u64, current_users: usize, recording: Option<u64>) -> (action:
    RecordingAction)
    ensures
        action == action_for(guild_id, current_users as nat, recording),
        action == RecordingAction::Start <==> recording is None && current_users > 0,
        action == RecordingAction::End <==> recording == Some(guild_id) && current_users == 0,
{
    match recording {
        None => {
            if current_users > 0 {
                RecordingAction::Start
            } else {
                RecordingAction::Keep
            }
        },
        Some(own) => {
            if own == guild_id && current_users == 0 {
                RecordingAction::End
            } else {
                RecordingAction::Keep
            }
        },
    }
}

/// The bits per second of a session. `channel` is what the channel tells, read as a signed
/// number.
pub fn session_bitrate(channel: Option<u32>) -> (bitrate: i32)
    ensures
        bitrate == match channel {
            Some(bits) => if bits < 0x8000_0000 {
                bits as int
            } else {
                bits - 0x1_0000_0000
            },
            None => DEFAULT_BITRATE as int,
        },
        channel is None ==> bitrate == 64000,
{
    match channel {
        Some(bits) => {
            if bits < 0x8000_0000 {
                bits as i32
            } else {
                (bits as i64 - 0x1_0000_0000) as i32
            }
        },
        None => DEFAULT_BITRATE,
    }
}

/// The guild that a change of voice state is about: the one of the new state, or else the one of
/// the state before, where there was one.
pub fn affected_guild(new: Option<u64>, before: Option<Option<u64>>) -> (guild: Option<u64>)
    ensures
        guild == match new {
            Some(guild) => Some(guild),
            None => match before {
                Some(guild) => guild,
                None => None,
            },
        },
{
    match new {
        Some(guild) => Some(guild),
        None => match before {
            Some(guild) => guild,
            None => None,
        },
    }
}

proof fn lemma_count_means_any(states: Seq<VoicePresence>, target: u64, bot_id: u64)
    ensures
        user_count(states, target, bot_id) > 0 <==> any_user(states, target, bot_id),
    decreases states.len(),
{
    reveal(Seq::filter);
    if states.len() > 0 {
        let fewer = states.drop_last();
        lemma_count_means_any(fewer, target, bot_id);
        if any_user(fewer, target, bot_id) {
            let i = choose|i: int|
                0 <= i < fewer.len() && #[trigger] fewer[i].counts(target, bot_id);
            assert(states[i].counts(target, bot_id));
        }
        if states.last().counts(target, bot_id) {
            assert(states[states.len() - 1].counts(target, bot_id));
        } else if any_user(states, target, bot_id) {
            let i = choose|i: int|
                0 <= i < states.len() && #[trigger] states[i].counts(target, bot_id);
            assert(fewer[i].counts(target, bot_id));
        }
    }
}

/// Nobody is counted where there is no voice state. A further voice state adds one exactly if its
/// user is in the channel and is not the bot; a user in another channel, or in none, never counts.
pub proof fn law_each_user_in_the_channel_counts_once(
    states: Seq<VoicePresence>,
    state: VoicePresence,
    target: u64,
    bot_id: u64,
)
    ensures
        user_count(Seq::empty(), target, bot_id) == 0,
        state.channel_id != Some(target) ==> user_count(states.push(state), target, bot_id)
            == user_count(states, target, bot_id),
        state.user_id == bot_id ==> user_count(states.push(state), target, bot_id) == user_count(
            states,
            target,
            bot_id,
        ),
        state.channel_id == Some(target) && state.user_id != bot_id ==> user_count(
            states.push(state),
            target,
            bot_id,
        ) == user_count(states, target, bot_id) + 1,
{
    reveal(Seq::filter);
    assert(states.push(state).drop_last() =~= states);
}

/// Of two lists of voice states, the users add up.
pub proof fn law_users_add_up(
    first: Seq<VoicePresence>,
    second: Seq<VoicePresence>,
    target: u64,
    bot_id: u64,
)
    ensures
        user_count(first + second, target, bot_id) == user_count(first, target, bot_id)
            + user_count(second, target, bot_id),
    decreases second.len(),
{
    if second.len() == 0 {
        assert(first + second =~= first);
        assert(second =~= Seq::empty());
        law_each_user_in_the_channel_counts_once(first, arbitrary(), target, bot_id);
    } else {
        let fewer = second.drop_last();
        law_users_add_up(first, fewer, target, bot_id);
        law_each_user_in_the_channel_counts_once(first + fewer, second.last(), target, bot_id);
        law_each_user_in_the_channel_counts_once(fewer, second.last(), target, bot_id);
        assert((first + fewer).push(second.last()) =~= first + second);
        assert(fewer.push(second.last()) =~= second);
    }
}

/// Someone is counted exactly if a user other than the bot is in the channel, wherever in the list
/// that user stands. Of a guild that is not known, nobody is.
pub proof fn law_users_are_found(states: Seq<VoicePresence>, target: u64, bot_id: u64)
    ensures
        users_of(None, target, bot_id) == 0,
        users_of(Some(states), target, bot_id) == user_count(states, target, bot_id),
        user_count(states, target, bot_id) <= states.len(),
        user_count(states, target, bot_id) > 0 <==> exists|i: int|
            0 <= i < states.len() && (#[trigger] states[i]).channel_id == Some(target)
                && states[i].user_id != bot_id,
        occupied(Some(states), target, bot_id) <==> exists|i: int|
            0 <= i < states.len() && (#[trigger] states[i]).channel_id == Some(target)
                && states[i].user_id != bot_id,
        !occupied(None, target, bot_id),
    decreases states.len(),
{
    lemma_count_means_any(states, target, bot_id);
    if any_user(states, target, bot_id) {
        let i = choose|i: int| 0 <= i < states.len() && #[trigger] states[i].counts(target, bot_id);
        assert(states[i].channel_id == Some(target) && states[i].user_id != bot_id);
    }
    if exists|i: int|
        0 <= i < states.len() && (#[trigger] states[i]).channel_id == Some(target)
            && states[i].user_id != bot_id {
        let i = choose|i: int|
            0 <= i < states.len() && (#[trigger] states[i]).channel_id == Some(target)
                && states[i].user_id != bot_id;
        assert(states[i].counts(target, bot_id));
    }
    if states.len() == 0 {
        assert(states =~= Seq::empty());
        law_each_user_in_the_channel_counts_once(states, arbitrary(), target, bot_id);
    } else {
        let fewer = states.drop_last();
        law_users_are_found(fewer, target, bot_id);
        law_each_user_in_the_channel_counts_once(fewer, states.last(), target, bot_id);
        assert(fewer.push(states.last()) =~= states);
    }
}

/// A session is started exactly where none is on and someone is there, and ended exactly where it
/// is on in this guild and nobody is there. Afterwards the guild of a session that was started is
/// this one, and one that was ended is on nowhere.
pub proof fn law_each_action_has_its_cause(guild_id: u64, users: nat, recording: Option<u64>)
    ensures
        action_for(guild_id, users, recording) == RecordingAction::Start <==> recording is None
            && users > 0,
        action_for(guild_id, users, recording) == RecordingAction::End <==> recording == Some(
            guild_id,
        ) && users == 0,
        recording_after(guild_id, recording, RecordingAction::Start) == Some(guild_id),
        recording_after(guild_id, recording, RecordingAction::End) is None,
        recording_after(guild_id, recording, RecordingAction::Keep) == recording,
{
}

/// Where no session is on in another guild, one is on in this guild exactly while someone is in
/// the channel, once the action is done: the first user to come starts it, and it ends when all
/// have left.
pub proof fn law_recording_follows_presence(
    guild_id: u64,
    states: Option<Seq<VoicePresence>>,
    target: u64,
    bot_id: u64,
    recording: Option<u64>,
)
    requires
        recording is None || recording == Some(guild_id),
    ensures
        recording_after(
            guild_id,
            recording,
            action_for(guild_id, users_of(states, target, bot_id), recording),
        ) == if occupied(states, target, bot_id) {
            Some(guild_id)
        } else {
            None
        },
{
    if let Some(states) = states {
        lemma_count_means_any(states, target, bot_id);
    }
}

/// Whoever is or is not in another guild, a session that is on stays on, in its own guild.
pub proof fn law_other_guilds_do_not_touch_a_session(guild_id: u64, users: nat, own: u64)
    requires
        guild_id != own,
    ensures
        action_for(guild_id, users, Some(own)) == RecordingAction::Keep,
        recording_after(guild_id, Some(own), action_for(guild_id, users, Some(own))) == Some(own),
{
}

/// A session lasts as long as nobody finds the channel of its own guild empty, whatever is found
/// elsewhere.
pub proof fn law_session_lasts_until_all_have_left(own: u64, counts: Seq<Headcount>)
    requires
        forall|i: int|
            0 <= i < counts.len() && (#[trigger] counts[i]).guild_id == own ==> counts[i].users > 0,
    ensures
        recording_after_all(Some(own), counts) == Some(own),
    decreases counts.len(),
{
    if counts.len() > 0 {
        let fewer = counts.drop_last();
        assert forall|i: int|
            0 <= i < fewer.len() && (#[trigger] fewer[i]).guild_id == own implies fewer[i].users
            > 0 by {
            assert(fewer[i] == counts[i]);
        }
        law_session_lasts_until_all_have_left(own, fewer);
        assert(counts[counts.len() - 1] == counts.last());
    }
}

/// While the same users stay, nothing more is to be done: one session is started, not two, and
/// it is ended once.
pub proof fn law_action_settles(guild_id: u64, users: nat, recording: Option<u64>)
    ensures
        action_for(
            guild_id,
            users,
            recording_after(guild_id, recording, action_for(guild_id, users, recording)),
        ) == RecordingAction::Keep,
{
}

/// The bot itself never counts.
pub proof fn law_bot_does_not_count(
    states: Seq<VoicePresence>,
    target: u64,
    bot_id: u64,
    bot: VoicePresence,
)
    requires
        bot.user_id == bot_id,
    ensures
        user_count(states.push(bot), target, bot_id) == user_count(states, target, bot_id),
{
    reveal(Seq::filter);
    assert(states.push(bot).drop_last() =~= states);
}

} // verus!
