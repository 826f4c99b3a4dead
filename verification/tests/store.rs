use pair_store::{
    get_dir_entries, read_pair, read_pair_group, write_pair, write_pair_group, DirectoryKind,
    Error, FileSystemDataAccess, FileSystemPair, FileSystemPairGroup, Pair, PairGroup,
    RootDirectory, WrittenFile, PAIRS_DIR_NAME, PAIR_GROUPS_DIR_NAME,
};

const STAMP: &str = "2024-05-01T12:00:00+00:00";

fn pair(id: &str, comparison: &str, value: f64) -> Pair {
    Pair {
        id: id.to_string(),
        value: value.to_bits(),
        base: "USD".to_string(),
        comparison: comparison.to_string(),
        created_at: STAMP.to_string(),
        updated_at: STAMP.to_string(),
    }
}

fn example_pairs() -> Vec<Pair> {
    vec![pair("p1", "BTC", 1.0), pair("p2", "ETH", 2.0), pair("p3", "BRL", 3.0)]
}

fn group(id: &str, is_pinned: bool, pairs: Vec<Pair>) -> PairGroup {
    PairGroup {
        id: id.to_string(),
        is_pinned,
        pairs,
        created_at: STAMP.to_string(),
        updated_at: STAMP.to_string(),
    }
}

#[test]
fn test_fetch_pair_groups() {
    let example_pairs = example_pairs();
    let example_pair_groups = vec![
        group("pg1", true, vec![example_pairs[0].clone(), example_pairs[1].clone()]),
        group("pg2", false, vec![example_pairs[2].clone()]),
    ];

    let mut root = RootDirectory::new();
    for example_pair_group in &example_pair_groups {
        write_pair_group(&mut root, example_pair_group).unwrap();
    }

    let mut data_access = FileSystemDataAccess { root };

    let pair_groups = data_access.fetch_pair_groups().unwrap();
    assert_eq!(pair_groups.len(), 2);
    assert_eq!(pair_groups[0], example_pair_groups[0]);
    assert_eq!(pair_groups[1], example_pair_groups[1]);
}

#[test]
fn test_update_pair_group() {
    let example_pairs = example_pairs();
    let first_pair_group =
        group("pg1", false, vec![example_pairs[0].clone(), example_pairs[1].clone()]);

    let mut root = RootDirectory::new();
    write_pair_group(&mut root, &first_pair_group).unwrap();

    let updated_pair_group = group(
        "pg1",
        true,
        vec![example_pairs[0].clone(), example_pairs[1].clone(), example_pairs[2].clone()],
    );

    let mut data_access = FileSystemDataAccess { root };
    data_access.update_pair_group(&updated_pair_group).unwrap();

    let stored_pair_group = read_pair_group(&data_access.root, "pg1").unwrap();
    assert_eq!(stored_pair_group, updated_pair_group);
}

#[test]
fn fetch_on_empty_root_gives_no_groups() {
    let mut data_access = FileSystemDataAccess { root: RootDirectory::new() };
    assert_eq!(data_access.fetch_pair_groups(), Ok(vec![]));
}

#[test]
fn round_trip_of_an_empty_group() {
    let mut root = RootDirectory::new();
    let empty = group("solo", true, vec![]);
    assert_eq!(write_pair_group(&mut root, &empty), Ok(()));
    assert_eq!(read_pair_group(&root, "solo"), Ok(empty.clone()));
    let mut data_access = FileSystemDataAccess { root };
    assert_eq!(data_access.fetch_pair_groups(), Ok(vec![empty]));
}

#[test]
fn round_trip_keeps_every_field_of_a_pair() {
    let mut root = RootDirectory::new();
    let p = Pair {
        id: "x".to_string(),
        base: "EUR".to_string(),
        comparison: "JPY".to_string(),
        value: 162.75f64.to_bits(),
        created_at: "2023-01-02T03:04:05+00:00".to_string(),
        updated_at: "2024-06-07T08:09:10+00:00".to_string(),
    };
    assert_eq!(write_pair(&mut root, &p), Ok(()));
    let back = read_pair(&root, "x").unwrap();
    assert_eq!(back, p);
    assert_eq!(f64::from_bits(back.value), 162.75);
}

#[test]
fn count_matches_number_of_distinct_groups() {
    let mut root = RootDirectory::new();
    let ids = ["a", "b", "c", "d", "e"];
    for id in ids {
        write_pair_group(&mut root, &group(id, false, example_pairs())).unwrap();
    }
    let mut data_access = FileSystemDataAccess { root };
    let fetched = data_access.fetch_pair_groups().unwrap();
    assert_eq!(fetched.len(), 5);
    for (i, id) in ids.iter().enumerate() {
        assert_eq!(fetched[i].id, *id);
    }
    assert_eq!(data_access.root.pair_groups.len(), 5);
    assert_eq!(data_access.root.pairs.len(), 3);
}

#[test]
fn update_replaces_and_does_not_merge() {
    let ps = example_pairs();
    let mut root = RootDirectory::new();
    write_pair_group(&mut root, &group("pg1", false, vec![ps[0].clone(), ps[1].clone()])).unwrap();
    let mut data_access = FileSystemDataAccess { root };
    let shrunk = group("pg1", true, vec![ps[2].clone()]);
    assert_eq!(data_access.update_pair_group(&shrunk), Ok(()));
    assert_eq!(data_access.fetch_pair_groups(), Ok(vec![shrunk]));
    // The pairs that the group no longer names keep their own files.
    assert_eq!(read_pair(&data_access.root, "p1"), Ok(ps[0].clone()));
    assert_eq!(data_access.root.pairs.len(), 3);
}

#[test]
fn update_changes_a_pair_shared_with_another_group() {
    let ps = example_pairs();
    let mut root = RootDirectory::new();
    write_pair_group(&mut root, &group("g1", false, vec![ps[0].clone()])).unwrap();
    write_pair_group(&mut root, &group("g2", false, vec![ps[0].clone(), ps[1].clone()])).unwrap();
    let mut data_access = FileSystemDataAccess { root };
    let repriced = pair("p1", "BTC", 9.5);
    data_access.update_pair_group(&group("g1", false, vec![repriced.clone()])).unwrap();
    let g2 = read_pair_group(&data_access.root, "g2").unwrap();
    assert_eq!(g2.pairs, vec![repriced, ps[1].clone()]);
}

#[test]
fn update_of_unknown_group_fails_and_changes_nothing() {
    let ps = example_pairs();
    let mut root = RootDirectory::new();
    write_pair_group(&mut root, &group("pg1", false, vec![ps[0].clone()])).unwrap();
    let journal_before = root.journal.clone();
    let mut data_access = FileSystemDataAccess { root };
    let result = data_access.update_pair_group(&group("pg2", true, vec![ps[1].clone()]));
    assert_eq!(
        result,
        Err(Error { message: "Pair group to update does not exist!".to_string() })
    );
    assert_eq!(Error::missing_group().to_text(), "Pair group to update does not exist!");
    assert_eq!(data_access.root.pairs.len(), 1);
    assert_eq!(data_access.root.pair_groups.len(), 1);
    assert_eq!(data_access.root.journal, journal_before);
    assert_eq!(read_pair(&data_access.root, "p2"), Err(Error::not_found()));
}

#[test]
fn update_on_empty_root_fails() {
    let mut data_access = FileSystemDataAccess { root: RootDirectory::new() };
    let result = data_access.update_pair_group(&group("pg1", true, example_pairs()));
    assert_eq!(result, Err(Error::missing_group()));
    assert_eq!(data_access.root.pairs.len(), 0);
    assert_eq!(data_access.root.pair_groups.len(), 0);
    assert!(data_access.root.journal.is_empty());
}

#[test]
fn missing_pair_file_fails_the_group() {
    let mut root = RootDirectory::new();
    write_pair(&mut root, &pair("p1", "BTC", 1.0)).unwrap();
    root.pair_groups.put(
        "pg1".to_string(),
        Ok(FileSystemPairGroup {
            id: "pg1".to_string(),
            is_pinned: false,
            pairs: vec!["p1".to_string(), "gone".to_string()],
            created_at: STAMP.to_string(),
            updated_at: STAMP.to_string(),
        }),
    );
    let expected = Error { message: "No such file or directory (os error 2)".to_string() };
    assert_eq!(read_pair_group(&root, "pg1"), Err(expected.clone()));
    let mut data_access = FileSystemDataAccess { root };
    assert_eq!(data_access.fetch_pair_groups(), Err(expected));
}

#[test]
fn missing_files_are_not_found() {
    let root = RootDirectory::new();
    assert_eq!(read_pair(&root, "p1"), Err(Error::not_found()));
    assert_eq!(read_pair_group(&root, "pg1"), Err(Error::not_found()));
    assert_eq!(Error::not_found().message, "No such file or directory (os error 2)");
    assert_ne!(Error::not_found(), Error::missing_group());
}

#[test]
fn undecodable_files_give_their_own_message() {
    let mut root = RootDirectory::new();
    root.pairs.put("bad".to_string(), Err("expected value at line 1 column 1".to_string()));
    root.pair_groups.put("worse".to_string(), Err("EOF while parsing".to_string()));
    assert_eq!(
        read_pair(&root, "bad"),
        Err(Error { message: "expected value at line 1 column 1".to_string() })
    );
    assert_eq!(
        read_pair_group(&root, "worse"),
        Err(Error::with_message("EOF while parsing"))
    );
    let mut data_access = FileSystemDataAccess { root };
    assert_eq!(
        data_access.fetch_pair_groups(),
        Err(Error { message: "EOF while parsing".to_string() })
    );
}

#[test]
fn unreadable_pair_matters_only_where_a_group_names_it() {
    let mut root = RootDirectory::new();
    root.pairs.put("bad".to_string(), Err("Permission denied (os error 13)".to_string()));
    let fine = group("fine", false, vec![pair("p1", "BTC", 1.0)]);
    write_pair_group(&mut root, &fine).unwrap();
    let mut data_access = FileSystemDataAccess { root };
    assert_eq!(data_access.fetch_pair_groups(), Ok(vec![fine]));
    // Writing the pair replaces the unreadable file.
    let mended = pair("bad", "ETH", 4.0);
    write_pair(&mut data_access.root, &mended).unwrap();
    assert_eq!(read_pair(&data_access.root, "bad"), Ok(mended));
    assert_eq!(data_access.root.pairs.len(), 2);
}

#[test]
fn first_failure_in_listing_order_is_reported() {
    let mut root = RootDirectory::new();
    root.pair_groups.put("one".to_string(), Err("first".to_string()));
    root.pair_groups.put("two".to_string(), Err("second".to_string()));
    let mut data_access = FileSystemDataAccess { root };
    assert_eq!(data_access.fetch_pair_groups(), Err(Error::with_message("first")));
}

#[test]
fn writing_twice_is_writing_once() {
    let g = group("pg1", true, example_pairs());
    let mut once = RootDirectory::new();
    write_pair_group(&mut once, &g).unwrap();
    let mut twice = RootDirectory::new();
    write_pair_group(&mut twice, &g).unwrap();
    write_pair_group(&mut twice, &g).unwrap();
    let mut a = FileSystemDataAccess { root: once };
    let mut b = FileSystemDataAccess { root: twice };
    assert_eq!(a.fetch_pair_groups(), b.fetch_pair_groups());
    assert_eq!(b.fetch_pair_groups(), Ok(vec![g]));
    assert_eq!(b.root.pairs.len(), 3);
    assert_eq!(b.root.pair_groups.len(), 1);
}

#[test]
fn pairs_come_back_in_the_order_of_the_record() {
    let ps = example_pairs();
    let g = group("pg1", false, vec![ps[2].clone(), ps[0].clone(), ps[1].clone()]);
    let mut root = RootDirectory::new();
    write_pair_group(&mut root, &g).unwrap();
    let record = FileSystemPairGroup::from_pair_group(&g);
    assert_eq!(record.pairs, vec!["p3".to_string(), "p1".to_string(), "p2".to_string()]);
    assert_eq!(record.id, "pg1");
    assert!(!record.is_pinned);
    let back = read_pair_group(&root, "pg1").unwrap();
    assert_eq!(back.pairs, g.pairs);
}

#[test]
fn journal_lists_pairs_before_their_group() {
    let ps = example_pairs();
    let mut root = RootDirectory::new();
    write_pair_group(&mut root, &group("pg1", false, vec![ps[0].clone(), ps[1].clone()])).unwrap();
    let written = |directory: DirectoryKind, name: &str| WrittenFile {
        directory,
        name: name.to_string(),
    };
    assert_eq!(
        root.journal,
        vec![
            written(DirectoryKind::Pairs, "p1"),
            written(DirectoryKind::Pairs, "p2"),
            written(DirectoryKind::PairGroups, "pg1"),
        ]
    );
}

#[test]
fn listing_names_files_in_order_of_first_write() {
    let ps = example_pairs();
    let mut root = RootDirectory::new();
    write_pair_group(&mut root, &group("pg2", false, vec![ps[1].clone()])).unwrap();
    write_pair_group(&mut root, &group("pg1", false, vec![ps[0].clone(), ps[1].clone()])).unwrap();
    write_pair_group(&mut root, &group("pg2", true, vec![ps[2].clone()])).unwrap();
    assert_eq!(
        get_dir_entries(&root, DirectoryKind::PairGroups),
        vec!["pg2".to_string(), "pg1".to_string()]
    );
    assert_eq!(
        get_dir_entries(&root, DirectoryKind::Pairs),
        vec!["p2".to_string(), "p1".to_string(), "p3".to_string()]
    );
    assert_eq!(root.pair_groups.find("pg1"), Some(1));
    assert_eq!(root.pair_groups.find("pg3"), None);
    assert_eq!(root.pairs.name_at(2), "p3");
}

#[test]
fn records_mirror_their_pairs() {
    let p = pair("p1", "BTC", 1.0);
    let record = FileSystemPair::from_pair(&p);
    assert_eq!(record.id, "p1");
    assert_eq!(record.base, "USD");
    assert_eq!(record.comparison, "BTC");
    assert_eq!(record.value, 1.0f64.to_bits());
    assert_eq!(record.to_pair(), p);
}

#[test]
fn pair_with_repeated_id_keeps_the_last_written() {
    let first = pair("p1", "BTC", 1.0);
    let second = pair("p1", "ETH", 2.0);
    let mut root = RootDirectory::new();
    write_pair_group(&mut root, &group("pg1", false, vec![first, second.clone()])).unwrap();
    let back = read_pair_group(&root, "pg1").unwrap();
    assert_eq!(back.pairs, vec![second.clone(), second]);
    assert_eq!(root.pairs.len(), 1);
}

#[test]
fn subdirectory_names() {
    assert_eq!(PAIRS_DIR_NAME, "pairs");
    assert_eq!(PAIR_GROUPS_DIR_NAME, "pair_groups");
}

#[test]
fn listed_entries_without_a_text_name_are_left_out() {
    let mut root = RootDirectory::new();
    let g = group("pg1", false, vec![pair("p1", "BTC", 1.0)]);
    root.pairs.add_listed(Some("p1".to_string()), Ok(FileSystemPair::from_pair(&g.pairs[0])));
    root.pairs.add_listed(None, Err("unread".to_string()));
    root.pair_groups.add_listed(None, Err("unread".to_string()));
    root.pair_groups.add_listed(Some("pg1".to_string()), Ok(FileSystemPairGroup::from_pair_group(&g)));
    root.pair_groups.add_listed(None, Ok(FileSystemPairGroup::from_pair_group(&g)));
    assert_eq!(root.pair_groups.len(), 1);
    assert_eq!(root.pairs.len(), 1);
    let mut data_access = FileSystemDataAccess { root };
    assert_eq!(data_access.fetch_pair_groups(), Ok(vec![g]));
}

#[test]
fn subdirectory_of_each_kind() {
    assert_eq!(DirectoryKind::Pairs.dir_name(), "pairs");
    assert_eq!(DirectoryKind::PairGroups.dir_name(), "pair_groups");
}

#[test]
fn get_gives_the_content_of_a_file() {
    let mut root = RootDirectory::new();
    let p = pair("p1", "BTC", 1.0);
    write_pair(&mut root, &p).unwrap();
    root.pairs.put("bad".to_string(), Err("broken".to_string()));
    assert_eq!(root.pairs.get("p1"), Some(&Ok(FileSystemPair::from_pair(&p))));
    assert_eq!(root.pairs.get("bad"), Some(&Err("broken".to_string())));
    assert_eq!(root.pairs.get("p2"), None);
}

#[test]
fn groups_stay_readable_while_pairs_are_being_written() {
    let ps = example_pairs();
    let g = group("pg1", false, vec![ps[0].clone(), ps[1].clone()]);
    let mut root = RootDirectory::new();
    write_pair_group(&mut root, &g).unwrap();
    // The pairs of a new state of the group arrive before its record.
    let repriced = pair("p2", "ETH", 2.5);
    write_pair(&mut root, &repriced).unwrap();
    write_pair(&mut root, &ps[2]).unwrap();
    let seen = read_pair_group(&root, "pg1").unwrap();
    assert_eq!(seen.pairs, vec![ps[0].clone(), repriced]);
    assert!(!seen.is_pinned);
}
