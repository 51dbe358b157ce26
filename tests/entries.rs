use journal::entries::{Entries, Entry};

fn names(v: &[&str]) -> Vec<String> {
    v.iter().map(|x| x.to_string()).collect()
}

#[test]
fn entry_paths_are_relative_to_root() {
    let e = Entry::read("journal", "2021-01-02", &names(&["a.jpg", "b.png"]), &names(&["c.mp3"]));
    assert_eq!(e.text_path(), "journal/2021-01-02/entry.md");
    assert_eq!(e.pics().to_vec(), names(&["2021-01-02/pics/a.jpg", "2021-01-02/pics/b.png"]));
    assert_eq!(e.audio().to_vec(), names(&["2021-01-02/audio/c.mp3"]));
    assert_eq!(e.date_str(), "2021-01-02");
}

#[test]
fn entry_without_files_has_empty_lists() {
    let e = Entry::read("journal", "2021-01-02", &vec![], &vec![]);
    assert!(e.pics().is_empty());
    assert!(e.audio().is_empty());
}

#[test]
fn date_str_drops_md_suffix() {
    let e = Entry::read("journal", "2021-01-02.md", &vec![], &vec![]);
    assert_eq!(e.date_str(), "2021-01-02");
    let e = Entry::read("journal", "a.mdb.md", &vec![], &vec![]);
    assert_eq!(e.date_str(), "ab");
}

fn archive() -> Entries {
    let found = vec![
        Entry::read("j", "2021-03-04", &vec![], &vec![]),
        Entry::read("j", "2020-12-31", &vec![], &vec![]),
        Entry::read("j", "2021-01-02", &vec![], &vec![]),
    ];
    Entries::read(found)
}

#[test]
fn entries_are_ordered_by_date() {
    let a = archive();
    assert_eq!(a.len(), 3);
    let first = a.get_by_date("2020-12-31".to_string()).unwrap();
    let second = a.next(first).unwrap();
    let third = a.next(second).unwrap();
    assert_eq!(second.date_str(), "2021-01-02");
    assert_eq!(third.date_str(), "2021-03-04");
    assert!(a.next(third).is_none());
    assert!(a.prev(first).is_none());
    assert_eq!(a.prev(third).unwrap().date_str(), "2021-01-02");
}

#[test]
fn get_by_date_misses_unknown_date() {
    let a = archive();
    assert!(a.get_by_date("2022-01-01".to_string()).is_none());
}

#[test]
fn neighbours_of_unknown_entry_are_none() {
    let a = archive();
    let stranger = Entry::read("j", "1999-01-01", &vec![], &vec![]);
    assert!(a.prev(&stranger).is_none());
    assert!(a.next(&stranger).is_none());
}

#[test]
fn random_entry_comes_from_archive() {
    let a = archive();
    let e = a.random().unwrap();
    assert!(a.get_by_date(e.date_str()).is_some());
    let empty = Entries::read(vec![]);
    assert!(empty.random().is_none());
}

#[test]
fn entries_of_one_date_keep_their_order() {
    let found = vec![
        Entry::read("j", "2021-01-02.md", &vec![], &vec![]),
        Entry::read("j", "2020-05-05", &vec![], &vec![]),
        Entry::read("j", "2021-01-02", &vec![], &vec![]),
    ];
    let a = Entries::read(found);
    let first = a.get_by_date("2021-01-02".to_string()).unwrap();
    assert_eq!(first.text_path(), "j/2021-01-02.md/entry.md");
    let second = a.next(first).unwrap();
    assert_eq!(second.text_path(), "j/2021-01-02/entry.md");
    assert_eq!(a.prev(first).unwrap().date_str(), "2020-05-05");
}
