use std::collections::HashMap;
use std::io::Cursor;

use discord_recorder::session::{Backfill, RecordingSession, SpeakingAction};
use discord_recorder::track::frame_buffer;

const GUILD: u64 = 7;

fn buffer_with(frame: &[u8]) -> Vec<u8> {
    let mut buffer = frame_buffer();
    buffer[..frame.len()].copy_from_slice(frame);
    buffer
}

/// Brings a user in, each missing frame being `silent`.
fn join(session: &mut RecordingSession, files: &mut HashMap<u64, Vec<u8>>, ssrc: u32, user: u64) {
    assert_eq!(
        session.speaking_state_update(ssrc, Some(user)),
        SpeakingAction::CreateTrack(user)
    );
    session.name_user(user, None);
    let mut backfill = session.begin_track::<()>(Ok(312)).unwrap();
    let mut bytes = Vec::new();
    while let Some(pcm) = backfill.next_frame() {
        assert_eq!(pcm, vec![0i16; 1920]);
        bytes.extend(silent_frame(&mut backfill));
    }
    session.add_track(user, backfill);
    files.insert(user, bytes);
}

fn silent_frame(backfill: &mut Backfill) -> Vec<u8> {
    assert!(backfill.has_room());
    backfill.write_silent_frame::<()>(buffer_with(b"silent"), Ok(6)).unwrap()
}

/// Lets a tick pass. A frame that was heard is written as its first sample.
fn tick(
    session: &mut RecordingSession,
    files: &mut HashMap<u64, Vec<u8>>,
    speaking: &HashMap<u32, Option<Vec<i16>>>,
) {
    for frame in session.voice_tick(speaking) {
        let encoded: Vec<u8> = if frame.heard {
            vec![frame.pcm[0] as u8]
        } else {
            assert_eq!(frame.pcm, vec![0i16; 1920]);
            b"silent".to_vec()
        };
        assert!(session.has_room(frame.user_id));
        let bytes = session
            .write_frame::<()>(frame.user_id, buffer_with(&encoded), Ok(encoded.len()))
            .unwrap();
        files.get_mut(&frame.user_id).unwrap().extend(bytes);
    }
}

fn close(session: &mut RecordingSession, files: &mut HashMap<u64, Vec<u8>>) {
    assert!(session.can_finalize());
    for (user, bytes) in session.finalize() {
        files.get_mut(&user).unwrap().extend(bytes);
    }
}

fn frames(bytes: &[u8]) -> (Vec<Vec<u8>>, u64) {
    let mut reader = ogg::PacketReader::new(Cursor::new(bytes.to_vec()));
    let mut frames = Vec::new();
    let mut last = 0;
    while let Some(packet) = reader.read_packet().unwrap() {
        last = packet.absgp_page();
        frames.push(packet.data);
    }
    (frames.split_off(2), last)
}

#[test]
fn report_without_a_user_is_ignored() {
    let mut session = RecordingSession::new(GUILD, 64000);
    assert_eq!(session.speaking_state_update(1, None), SpeakingAction::Ignore);
    assert!(session.voice_tick(&HashMap::new()).is_empty());
    assert!(session.finalize().is_empty());
}

#[test]
fn new_session_stands_at_its_start() {
    let session = RecordingSession::new(GUILD, 96000);
    assert_eq!(session.bitrate(), 96000);
    assert_eq!(session.guild_id(), 7);
    assert_eq!(session.tick_count(), 0);
}

#[test]
fn user_gets_one_track_only() {
    let mut session = RecordingSession::new(GUILD, 64000);
    let mut files = HashMap::new();
    join(&mut session, &mut files, 1, 10);
    assert_eq!(session.speaking_state_update(2, Some(10)), SpeakingAction::Keep);
    assert_eq!(session.speaking_state_update(1, Some(11)), SpeakingAction::CreateTrack(11));
}

#[test]
fn user_without_a_track_is_asked_for_again() {
    let mut session = RecordingSession::new(GUILD, 64000);
    assert_eq!(session.speaking_state_update(1, Some(10)), SpeakingAction::CreateTrack(10));
    assert_eq!(session.name_user(10, Some("alice".to_string())), "alice.opus");
    assert!(session.begin_track::<&str>(Err("no encoder")).is_err());
    assert_eq!(session.speaking_state_update(1, Some(10)), SpeakingAction::CreateTrack(10));
}

#[test]
fn files_are_named_after_their_users() {
    let mut session = RecordingSession::new(GUILD, 64000);
    assert_eq!(session.name_user(10, Some("alice".to_string())), "alice.opus");
    assert_eq!(session.name_user(123456789012345678, None), "123456789012345678.opus");
}

#[test]
fn heard_and_silent_frames_are_told_apart() {
    let mut session = RecordingSession::new(GUILD, 64000);
    let mut files = HashMap::new();
    join(&mut session, &mut files, 1, 10);
    join(&mut session, &mut files, 2, 20);
    join(&mut session, &mut files, 3, 30);
    let mut speaking = HashMap::new();
    speaking.insert(1, Some(vec![5i16; 1920]));
    // A stream on which nothing was decoded.
    speaking.insert(2, None);
    // A stream that belongs to nobody.
    speaking.insert(9, Some(vec![9i16; 1920]));
    let mut plan = session.voice_tick(&speaking);
    plan.sort_by_key(|frame| frame.user_id);
    assert_eq!(plan.len(), 3);
    assert!(plan[0].user_id == 10 && plan[0].heard);
    assert_eq!(plan[0].pcm, vec![5i16; 1920]);
    assert!(plan[1].user_id == 20 && !plan[1].heard);
    assert_eq!(plan[1].pcm, vec![0i16; 1920]);
    assert!(plan[2].user_id == 30 && !plan[2].heard);
    assert_eq!(session.tick_count(), 1);
}

#[test]
fn voice_follows_the_stream_of_the_last_report() {
    let mut session = RecordingSession::new(GUILD, 64000);
    let mut files = HashMap::new();
    join(&mut session, &mut files, 1, 10);
    session.speaking_state_update(2, Some(10));
    let mut speaking = HashMap::new();
    speaking.insert(1, Some(vec![1i16; 1920]));
    speaking.insert(2, Some(vec![2i16; 1920]));
    tick(&mut session, &mut files, &speaking);
    close(&mut session, &mut files);
    assert_eq!(frames(&files[&10]), (vec![vec![2]], 312 + 960));
}

#[test]
fn late_user_is_in_time_with_the_session() {
    let mut session = RecordingSession::new(GUILD, 64000);
    let mut files = HashMap::new();
    join(&mut session, &mut files, 1, 10);
    let mut speaking = HashMap::new();
    speaking.insert(1, Some(vec![7i16; 1920]));
    for _ in 0..3 {
        tick(&mut session, &mut files, &speaking);
    }
    join(&mut session, &mut files, 2, 20);
    speaking.insert(2, Some(vec![8i16; 1920]));
    tick(&mut session, &mut files, &speaking);
    close(&mut session, &mut files);
    let silent = b"silent".to_vec();
    assert_eq!(
        frames(&files[&10]),
        (vec![vec![7], vec![7], vec![7], vec![7]], 312 + 4 * 960)
    );
    assert_eq!(
        frames(&files[&20]),
        (vec![silent.clone(), silent.clone(), silent, vec![8]], 312 + 4 * 960)
    );
}

#[test]
fn failed_backfill_is_given_up() {
    let mut session = RecordingSession::new(GUILD, 64000);
    for _ in 0..5 {
        session.voice_tick(&HashMap::new());
    }
    session.speaking_state_update(1, Some(10));
    session.name_user(10, None);
    let mut backfill = session.begin_track::<()>(Ok(312)).unwrap();
    silent_frame(&mut backfill);
    assert!(backfill.needs_frame());
    assert_eq!(backfill.write_silent_frame(frame_buffer(), Err("broken")), Err("broken"));
    assert!(!backfill.needs_frame());
    assert_eq!(backfill.next_frame(), None);
    session.add_track(10, backfill);
    let rest = session.finalize();
    assert_eq!(rest.len(), 1);

    let mut backfill = session.begin_track::<()>(Ok(312)).unwrap();
    assert!(backfill.needs_frame());
    backfill.give_up();
    assert!(!backfill.needs_frame());
}

#[test]
fn failed_frame_changes_nothing() {
    let mut session = RecordingSession::new(GUILD, 64000);
    let mut files = HashMap::new();
    join(&mut session, &mut files, 1, 10);
    session.voice_tick(&HashMap::new());
    assert_eq!(session.write_frame(10, frame_buffer(), Err("broken")), Err("broken"));
    close(&mut session, &mut files);
    assert_eq!(frames(&files[&10]), (vec![], 0));
}

#[test]
fn tracks_are_closed_once() {
    let mut session = RecordingSession::new(GUILD, 64000);
    let mut files = HashMap::new();
    join(&mut session, &mut files, 1, 10);
    join(&mut session, &mut files, 2, 20);
    tick(&mut session, &mut files, &HashMap::new());
    assert_eq!(session.finalize().len(), 2);
    assert!(session.finalize().is_empty());
    assert!(session.voice_tick(&HashMap::new()).is_empty());
}

#[test]
fn report_about_one_user_leaves_the_others_alone() {
    let mut session = RecordingSession::new(GUILD, 64000);
    let mut files = HashMap::new();
    join(&mut session, &mut files, 1, 10);
    join(&mut session, &mut files, 2, 20);
    session.speaking_state_update(3, Some(20));
    let mut speaking = HashMap::new();
    speaking.insert(1, Some(vec![1i16; 1920]));
    speaking.insert(3, Some(vec![3i16; 1920]));
    tick(&mut session, &mut files, &speaking);
    close(&mut session, &mut files);
    assert_eq!(frames(&files[&10]).0, vec![vec![1]]);
    assert_eq!(frames(&files[&20]).0, vec![vec![3]]);
}

#[test]
fn session_stays_in_its_guild() {
    let mut session = RecordingSession::new(GUILD, 64000);
    let mut files = HashMap::new();
    join(&mut session, &mut files, 1, 10);
    tick(&mut session, &mut files, &HashMap::new());
    close(&mut session, &mut files);
    assert_eq!(session.guild_id(), GUILD);
}

#[test]
fn sound_stands_where_it_was_heard() {
    let mut session = RecordingSession::new(GUILD, 64000);
    let mut files = HashMap::new();
    join(&mut session, &mut files, 1, 10);
    join(&mut session, &mut files, 2, 20);
    for i in 0..6i16 {
        let mut speaking = HashMap::new();
        // One user is heard in the even ticks, the other in the last two.
        if i % 2 == 0 {
            speaking.insert(1, Some(vec![i; 1920]));
        }
        if i >= 4 {
            speaking.insert(2, Some(vec![100 + i; 1920]));
        }
        tick(&mut session, &mut files, &speaking);
        if i == 2 {
            join(&mut session, &mut files, 3, 30);
        }
    }
    close(&mut session, &mut files);
    let silent = b"silent".to_vec();
    let end = 312 + 6 * 960;
    assert_eq!(
        frames(&files[&10]),
        (vec![vec![0], silent.clone(), vec![2], silent.clone(), vec![4], silent.clone()], end)
    );
    let mut second = vec![silent.clone(); 4];
    second.extend([vec![104], vec![105]]);
    assert_eq!(frames(&files[&20]), (second, end));
    assert_eq!(frames(&files[&30]), (vec![silent; 6], end));
}

#[test]
fn closing_depends_on_the_state_alone() {
    let mut closed = Vec::new();
    for _ in 0..2 {
        let mut session = RecordingSession::new(GUILD, 64000);
        let mut files = HashMap::new();
        join(&mut session, &mut files, 1, 10);
        join(&mut session, &mut files, 2, 20);
        let mut speaking = HashMap::new();
        speaking.insert(1, Some(vec![5i16; 1920]));
        tick(&mut session, &mut files, &speaking);
        tick(&mut session, &mut files, &HashMap::new());
        let mut rest = session.finalize();
        rest.sort();
        for (user, bytes) in &rest {
            files.get_mut(user).unwrap().extend(bytes);
        }
        let mut files: Vec<(u64, Vec<u8>)> = files.into_iter().collect();
        files.sort();
        closed.push((rest, files));
    }
    assert_eq!(closed[0], closed[1]);
    assert_eq!(frames(&closed[0].1[0].1), (vec![vec![5], b"silent".to_vec()], 312 + 2 * 960));
}

#[test]
fn session_without_tracks_closes_without_output() {
    let mut session = RecordingSession::new(GUILD, 64000);
    session.speaking_state_update(1, Some(10));
    session.name_user(10, None);
    session.voice_tick(&HashMap::new());
    assert!(session.can_finalize());
    assert!(session.finalize().is_empty());
}

#[test]
fn missing_frames_are_made_of_silence() {
    let mut session = RecordingSession::new(GUILD, 64000);
    let backfill = session.begin_track::<()>(Ok(312)).unwrap();
    assert_eq!(backfill.next_frame(), None);
    session.voice_tick(&HashMap::new());
    session.voice_tick(&HashMap::new());
    let mut backfill = session.begin_track::<()>(Ok(312)).unwrap();
    assert_eq!(backfill.next_frame(), Some(vec![0i16; 1920]));
    silent_frame(&mut backfill);
    assert_eq!(backfill.next_frame(), Some(vec![0i16; 1920]));
    silent_frame(&mut backfill);
    assert_eq!(backfill.next_frame(), None);
}

#[test]
fn tracks_with_page_numbers_left_are_kept() {
    let mut session = RecordingSession::new(GUILD, 64000);
    let mut files = HashMap::new();
    assert!(session.give_up_full_tracks().is_empty());
    join(&mut session, &mut files, 1, 10);
    join(&mut session, &mut files, 2, 20);
    tick(&mut session, &mut files, &HashMap::new());
    assert!(session.give_up_full_tracks().is_empty());
    close(&mut session, &mut files);
    assert_eq!(frames(&files[&10]), (vec![b"silent".to_vec()], 312 + 960));
    assert_eq!(frames(&files[&20]), (vec![b"silent".to_vec()], 312 + 960));
}
