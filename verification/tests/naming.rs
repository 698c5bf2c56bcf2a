use discord_recorder::naming::{display_name, session_dir_name, track_file_name, LocalTime};

fn at(year: i32, month: u32, day: u32, hour: u32, minute: u32, second: u32) -> LocalTime {
    LocalTime { year, month, day, hour, minute, second }
}

fn name(time: LocalTime) -> String {
    session_dir_name(&time).unwrap()
}

#[test]
fn directories_are_named_after_their_moment() {
    assert_eq!(name(at(2024, 1, 2, 3, 4, 5)), "20240102030405");
    assert_eq!(name(at(1999, 12, 31, 23, 59, 59)), "19991231235959");
    assert_eq!(name(at(2024, 2, 29, 0, 0, 0)), "20240229000000");
    assert_eq!(name(at(2000, 2, 29, 0, 0, 0)), "20000229000000");
}

#[test]
fn years_that_do_not_have_four_digits() {
    assert_eq!(name(at(7, 1, 1, 0, 0, 0)), "00070101000000");
    assert_eq!(name(at(0, 1, 1, 0, 0, 0)), "00000101000000");
    assert_eq!(name(at(9999, 1, 1, 0, 0, 0)), "99990101000000");
    assert_eq!(name(at(10000, 1, 1, 0, 0, 0)), "+100000101000000");
    assert_eq!(name(at(-5, 1, 1, 0, 0, 0)), "-00050101000000");
    assert_eq!(name(at(262142, 1, 1, 0, 0, 0)), "+2621420101000000");
    assert_eq!(name(at(-262143, 1, 1, 0, 0, 0)), "-2621430101000000");
}

#[test]
fn moments_that_do_not_exist_have_no_directory() {
    let invalid = [
        at(2023, 2, 29, 0, 0, 0),
        at(1900, 2, 29, 0, 0, 0),
        at(2024, 4, 31, 0, 0, 0),
        at(2024, 0, 1, 0, 0, 0),
        at(2024, 13, 1, 0, 0, 0),
        at(2024, 1, 0, 0, 0, 0),
        at(2024, 1, 32, 0, 0, 0),
        at(2024, 1, 1, 24, 0, 0),
        at(2024, 1, 1, 0, 60, 0),
        at(2024, 1, 1, 0, 0, 60),
        at(262143, 1, 1, 0, 0, 0),
        at(-262144, 1, 1, 0, 0, 0),
    ];
    for time in invalid {
        assert_eq!(session_dir_name(&time), None);
    }
}

#[test]
fn users_go_by_their_name_or_else_by_their_number() {
    assert_eq!(display_name(42, Some("alice".to_string())), "alice");
    assert_eq!(display_name(42, None), "42");
    assert_eq!(display_name(0, None), "0");
    assert_eq!(display_name(9, None), "9");
    assert_eq!(display_name(10, None), "10");
    assert_eq!(display_name(u64::MAX, None), u64::MAX.to_string());
}

#[test]
fn track_files_are_opus_files() {
    assert_eq!(track_file_name("alice"), "alice.opus");
    assert_eq!(track_file_name(""), ".opus");
    assert_eq!(track_file_name("如月"), "如月.opus");
}

#[test]
fn different_moments_and_numbers_have_different_names() {
    let moments = [
        at(2024, 1, 11, 1, 1, 1),
        at(2024, 11, 1, 1, 1, 1),
        at(2024, 1, 1, 11, 1, 1),
        at(2024, 1, 1, 1, 11, 1),
        at(2024, 1, 1, 1, 1, 11),
        at(20241, 1, 1, 1, 1, 1),
        at(-2024, 1, 1, 1, 1, 1),
    ];
    for (i, a) in moments.iter().enumerate() {
        for b in &moments[i + 1..] {
            assert_ne!(name(*a), name(*b));
        }
    }
    assert_ne!(display_name(1, None), display_name(11, None));
}
