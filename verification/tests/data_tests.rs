use goblin_maker::data::{
    listing_le, parse_level_list, rename_level, sort_levels, LevelSorting, ListParseError,
    NetworkResult, OnlineLevel,
};

#[test]
fn parses_a_well_formed_listing() {
    let data = b"alpha_10-2024-99,beta cave_3-05 Jun-5".to_vec();
    let list = parse_level_list(&data).unwrap();
    assert_eq!(list.len(), 2);
    assert_eq!(list[0].name, b"alpha".to_vec());
    assert_eq!(list[0].downloads, 10);
    assert_eq!(list[0].date, b"2024".to_vec());
    assert_eq!(list[0].timestamp, 99);
    assert_eq!(list[1].name, b"beta cave".to_vec());
    assert_eq!(list[1].downloads, 3);
    assert_eq!(list[1].date, b"05 Jun".to_vec());
    assert_eq!(list[1].timestamp, 5);
}

#[test]
fn malformed_entries_are_errors() {
    // no underscore
    assert_eq!(
        parse_level_list(&b"alpha10-2024-99".to_vec()).err(),
        Some(ListParseError::MalformedEntry),
    );
    // a fourth dash-separated field
    assert_eq!(
        parse_level_list(&b"alpha_10-20-24-99".to_vec()).err(),
        Some(ListParseError::MalformedEntry),
    );
    // non-digit downloads
    assert_eq!(
        parse_level_list(&b"alpha_x-2024-99".to_vec()).err(),
        Some(ListParseError::MalformedEntry),
    );
    // empty message has no entry at all
    assert_eq!(parse_level_list(&Vec::new()).err(), Some(ListParseError::MalformedEntry));
    // one bad entry poisons the list
    assert_eq!(
        parse_level_list(&b"alpha_10-2024-99,broken".to_vec()).err(),
        Some(ListParseError::MalformedEntry),
    );
}

#[test]
fn downloads_overflow_is_malformed() {
    // downloads must fit u32
    assert_eq!(
        parse_level_list(&b"alpha_4294967296-2024-99".to_vec()).err(),
        Some(ListParseError::MalformedEntry),
    );
    let ok = parse_level_list(&b"alpha_4294967295-2024-99".to_vec()).unwrap();
    assert_eq!(ok[0].downloads, u32::MAX);
}

#[test]
fn renaming_refuses_collisions() {
    let mut names = vec![b"one".to_vec(), b"two".to_vec(), b"three".to_vec()];
    assert!(!rename_level(&mut names, 0, b"two".to_vec()));
    assert_eq!(names[0], b"one".to_vec());
    assert!(rename_level(&mut names, 0, b"four".to_vec()));
    assert_eq!(names[0], b"four".to_vec());
    // renaming a level to its own current name is allowed
    assert!(rename_level(&mut names, 1, b"two".to_vec()));
}

fn lvl(name: &[u8], downloads: u32, timestamp: u64) -> OnlineLevel {
    OnlineLevel { name: name.to_vec(), downloads, date: Vec::new(), timestamp }
}

#[test]
fn listing_orders() {
    let a = lvl(b"Apple", 10, 5);
    let b = lvl(b"banana", 3, 9);
    // downloads and time sort descending
    assert!(listing_le(LevelSorting::Downloads, &a, &b));
    assert!(!listing_le(LevelSorting::Downloads, &b, &a));
    assert!(listing_le(LevelSorting::Time, &b, &a));
    assert!(!listing_le(LevelSorting::Time, &a, &b));
    // names compare case-insensitively
    assert!(listing_le(LevelSorting::Name, &a, &b));
    assert!(!listing_le(LevelSorting::Name, &b, &a));
    assert!(listing_le(LevelSorting::Name, &lvl(b"abc", 0, 0), &lvl(b"ABC", 0, 0)));
    assert!(listing_le(LevelSorting::Name, &lvl(b"ab", 0, 0), &lvl(b"abc", 0, 0)));
    assert!(!listing_le(LevelSorting::Name, &lvl(b"abc", 0, 0), &lvl(b"ab", 0, 0)));
}

#[test]
fn sorting_orders_the_whole_listing() {
    let mut levels = vec![
        lvl(b"Cherry", 2, 30),
        lvl(b"apple", 9, 10),
        lvl(b"Banana", 5, 20),
    ];
    sort_levels(&mut levels, LevelSorting::Downloads);
    let downloads: Vec<u32> = levels.iter().map(|l| l.downloads).collect();
    assert_eq!(downloads, vec![9, 5, 2]);
    sort_levels(&mut levels, LevelSorting::Time);
    let times: Vec<u64> = levels.iter().map(|l| l.timestamp).collect();
    assert_eq!(times, vec![30, 20, 10]);
    sort_levels(&mut levels, LevelSorting::Name);
    let names: Vec<Vec<u8>> = levels.iter().map(|l| l.name.clone()).collect();
    assert_eq!(names, vec![b"apple".to_vec(), b"Banana".to_vec(), b"Cherry".to_vec()]);
}

#[test]
fn network_results_carry_their_message() {
    let ok = NetworkResult::Success;
    let fail = NetworkResult::Fail(String::from("no route"));
    assert!(ok == NetworkResult::Success);
    match fail {
        NetworkResult::Fail(msg) => assert_eq!(msg, "no route"),
        NetworkResult::Success => panic!("expected a failure"),
    }
}
