use discord_recorder::presence::{
    affected_guild, current_users, recording_action, session_bitrate, RecordingAction,
    VoicePresence,
};

const TARGET: u64 = 100;
const BOT: u64 = 1;
const GUILD: u64 = 7;
const OTHER_GUILD: u64 = 8;

fn state(user_id: u64, channel_id: Option<u64>) -> VoicePresence {
    VoicePresence { user_id, channel_id }
}

#[test]
fn users_in_the_channel_are_counted() {
    let states = vec![
        state(2, Some(TARGET)),
        state(3, Some(200)),
        state(4, None),
        state(5, Some(TARGET)),
        state(BOT, Some(TARGET)),
    ];
    assert_eq!(current_users(&Some(states), TARGET, BOT), 2);
}

#[test]
fn bot_alone_and_unknown_guild_count_for_nothing() {
    assert_eq!(current_users(&Some(vec![state(BOT, Some(TARGET))]), TARGET, BOT), 0);
    assert_eq!(current_users(&Some(vec![]), TARGET, BOT), 0);
    assert_eq!(current_users(&None, TARGET, BOT), 0);
}

#[test]
fn recording_starts_with_the_first_user_and_ends_with_the_last() {
    assert_eq!(recording_action(GUILD, 1, None), RecordingAction::Start);
    assert_eq!(recording_action(GUILD, 2, Some(GUILD)), RecordingAction::Keep);
    assert_eq!(recording_action(GUILD, 0, Some(GUILD)), RecordingAction::End);
    assert_eq!(recording_action(GUILD, 0, None), RecordingAction::Keep);
}

#[test]
fn other_guild_does_not_touch_a_session() {
    // Nobody is in the channel over there, while the session's own guild still has a user in it.
    let elsewhere = current_users(&Some(vec![state(2, Some(200))]), TARGET, BOT);
    assert_eq!(elsewhere, 0);
    assert_eq!(recording_action(OTHER_GUILD, elsewhere, Some(GUILD)), RecordingAction::Keep);
    assert_eq!(recording_action(OTHER_GUILD, 3, Some(GUILD)), RecordingAction::Keep);
    assert_eq!(recording_action(OTHER_GUILD, 0, Some(OTHER_GUILD)), RecordingAction::End);
}

#[test]
fn action_settles() {
    // What is done once is not asked for again while the same users stay.
    assert_eq!(recording_action(GUILD, 1, None), RecordingAction::Start);
    assert_eq!(recording_action(GUILD, 1, Some(GUILD)), RecordingAction::Keep);
    assert_eq!(recording_action(GUILD, 0, Some(GUILD)), RecordingAction::End);
    assert_eq!(recording_action(GUILD, 0, None), RecordingAction::Keep);
}

#[test]
fn bitrate_comes_from_the_channel() {
    assert_eq!(session_bitrate(Some(96000)), 96000);
    assert_eq!(session_bitrate(None), 64000);
    assert_eq!(session_bitrate(Some(0)), 0);
    assert_eq!(session_bitrate(Some(0x7fff_ffff)), i32::MAX);
    assert_eq!(session_bitrate(Some(0x8000_0000)), i32::MIN);
    assert_eq!(session_bitrate(Some(u32::MAX)), -1);
}

#[test]
fn guild_of_a_change_is_the_new_one_or_else_the_old_one() {
    assert_eq!(affected_guild(Some(1), Some(Some(2))), Some(1));
    assert_eq!(affected_guild(None, Some(Some(2))), Some(2));
    assert_eq!(affected_guild(None, Some(None)), None);
    assert_eq!(affected_guild(None, None), None);
}
