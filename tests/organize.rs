use date_bucket::calendar::{dir_name, Day};
use date_bucket::clock::{epoch_seconds, get_file_day, get_file_day_at, TIMESTAMP_LIMIT};
use date_bucket::error::{check_target, target_from_args, OrganizeError};
use date_bucket::plan::{plan, Action, Entry, EntryKind};

fn day(y: i32, m: u32, d: u32) -> Day {
    Day::new(y, m, d).unwrap()
}

fn file(name: &str, d: Day) -> Entry {
    Entry { name: name.to_string(), kind: EntryKind::File(d) }
}

fn dir(name: &str) -> Entry {
    Entry { name: name.to_string(), kind: EntryKind::Dir }
}

fn create(n: &str) -> Action {
    Action::CreateDir(n.to_string())
}

fn mv(f: &str, d: &str) -> Action {
    Action::Move { file: f.to_string(), dir: d.to_string() }
}

#[test]
fn three_files_two_days() {
    let entries = vec![
        file("a.txt", day(2024, 9, 3)),
        file("b.txt", day(2024, 9, 3)),
        file("c.txt", day(2024, 9, 4)),
    ];
    let actions = plan(&entries);
    assert_eq!(
        actions,
        vec![
            create("2024-09-03"),
            mv("a.txt", "2024-09-03"),
            mv("b.txt", "2024-09-03"),
            create("2024-09-04"),
            mv("c.txt", "2024-09-04"),
        ]
    );
}

#[test]
fn empty_directory_has_nothing_to_do() {
    let actions = plan(&Vec::new());
    assert!(actions.is_empty());
}

#[test]
fn missing_target_is_not_a_directory() {
    assert_eq!(check_target(false, false), Err(OrganizeError::NotADirectory));
    assert_eq!(check_target(true, false), Err(OrganizeError::NotADirectory));
    assert_eq!(check_target(true, true), Ok(()));
}

#[test]
fn existing_day_directory_is_reused() {
    let entries = vec![file("a.txt", day(2024, 9, 3)), dir("2024-09-03")];
    assert_eq!(plan(&entries), vec![mv("a.txt", "2024-09-03")]);
}

#[test]
fn directories_and_other_entries_stay() {
    let entries = vec![
        dir("photos"),
        Entry { name: "link".to_string(), kind: EntryKind::Other },
        file("notes.md", day(2023, 1, 31)),
        dir("2023-02-01"),
    ];
    assert_eq!(plan(&entries), vec![create("2023-01-31"), mv("notes.md", "2023-01-31")]);
}

#[test]
fn second_run_is_idle() {
    let first = vec![
        file("a.txt", day(2024, 9, 3)),
        dir("old"),
        file("c.txt", day(2024, 9, 4)),
    ];
    assert_eq!(plan(&first).len(), 4);
    let after = vec![dir("old"), dir("2024-09-03"), dir("2024-09-04")];
    assert!(plan(&after).is_empty());
}

#[test]
fn different_days_get_different_directories() {
    let entries = vec![file("x", day(2024, 1, 10)), file("y", day(2024, 10, 1))];
    assert_eq!(
        plan(&entries),
        vec![create("2024-01-10"), mv("x", "2024-01-10"), create("2024-10-01"), mv("y", "2024-10-01")]
    );
}

#[test]
fn day_names_are_zero_padded() {
    assert_eq!(dir_name(day(2024, 9, 3)), "2024-09-03");
    assert_eq!(dir_name(day(5, 1, 2)), "0005-01-02");
    assert_eq!(dir_name(day(9999, 12, 31)), "9999-12-31");
    assert_eq!(dir_name(day(0, 2, 29)), "0000-02-29");
}

#[test]
fn calendar_dates_are_checked() {
    assert!(Day::new(2023, 2, 29).is_none());
    assert!(Day::new(2024, 2, 29).is_some());
    assert!(Day::new(1900, 2, 29).is_none());
    assert!(Day::new(2000, 2, 29).is_some());
    assert!(Day::new(2024, 4, 31).is_none());
    assert!(Day::new(2024, 13, 1).is_none());
    assert!(Day::new(2024, 0, 1).is_none());
    assert!(Day::new(2024, 1, 0).is_none());
    assert!(Day::new(10000, 1, 1).is_none());
    assert!(Day::new(-1, 1, 1).is_none());
    assert_eq!(Day::new(2024, 9, 3), Some(Day { year: 2024, month: 9, day: 3 }));
}

#[test]
fn days_at_fixed_offsets() {
    assert_eq!(get_file_day_at(0, 0), Ok(day(1970, 1, 1)));
    assert_eq!(get_file_day_at(-1, 0), Ok(day(1969, 12, 31)));
    assert_eq!(get_file_day_at(86_399, 3_600), Ok(day(1970, 1, 2)));
    assert_eq!(get_file_day_at(1_725_321_600, 0), Ok(day(2024, 9, 3)));
    assert_eq!(get_file_day_at(1_725_321_600, -60), Ok(day(2024, 9, 2)));
    assert_eq!(get_file_day_at(253_402_300_799, 0), Ok(day(9999, 12, 31)));
    assert_eq!(get_file_day_at(253_402_300_800, 0), Err(OrganizeError::MetadataReadFailure));
    assert_eq!(get_file_day_at(0, 86_400), Err(OrganizeError::MetadataReadFailure));
    assert_eq!(get_file_day_at(TIMESTAMP_LIMIT + 1, 0), Err(OrganizeError::MetadataReadFailure));
}

#[test]
fn local_days_are_valid() {
    let d = get_file_day(1_725_321_600).unwrap();
    assert_eq!((d.year, d.month), (2024, 9));
    assert!(d.day == 2 || d.day == 3 || d.day == 4);
    assert_eq!(get_file_day(TIMESTAMP_LIMIT + 1), Err(OrganizeError::MetadataReadFailure));
    assert_eq!(get_file_day(-TIMESTAMP_LIMIT - 1), Err(OrganizeError::MetadataReadFailure));
}

#[test]
fn epoch_seconds_round_down() {
    assert_eq!(epoch_seconds(false, 5, 999), Some(5));
    assert_eq!(epoch_seconds(true, 5, 0), Some(-5));
    assert_eq!(epoch_seconds(true, 5, 1), Some(-6));
    assert_eq!(epoch_seconds(true, 1u64 << 63, 0), Some(i64::MIN));
    assert_eq!(epoch_seconds(true, 1u64 << 63, 1), None);
    assert_eq!(epoch_seconds(false, 1u64 << 63, 0), None);
}

#[test]
fn arguments_name_the_target() {
    assert_eq!(target_from_args(&vec!["prog".to_string()]), Err(OrganizeError::InvalidArgument));
    assert_eq!(
        target_from_args(&vec!["prog".to_string(), "dir".to_string()]),
        Ok("dir".to_string())
    );
}

#[test]
fn failures_name_the_operation() {
    assert_eq!(create("2024-09-03").failure(), OrganizeError::DirectoryCreateFailure);
    assert_eq!(mv("a", "2024-09-03").failure(), OrganizeError::MoveFailure);
    assert_eq!(OrganizeError::NotADirectory.describe(), "the provided path is not a valid directory");
}
