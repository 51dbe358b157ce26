use journal::placement::{
    category_folder, entry_folder, entry_note, entry_seed, join_path, plan_placement, FsAction,
    PlacementError,
};

fn s(x: &str) -> String {
    x.to_string()
}

#[test]
fn paths_join_with_one_separator() {
    assert_eq!(join_path("archive", "2021-01-02"), "archive/2021-01-02");
    assert_eq!(join_path("archive/", "2021-01-02"), "archive/2021-01-02");
    assert_eq!(join_path("", "2021-01-02"), "2021-01-02");
    assert_eq!(entry_folder("/data/journal", "2021-01-02"), "/data/journal/2021-01-02");
    assert_eq!(entry_note("journal", "2021-01-02"), "journal/2021-01-02/entry.md");
}

#[test]
fn seed_note_is_heading_and_blank_line() {
    assert_eq!(entry_seed("2021-01-02"), "# 2021-01-02\n\n");
}

#[test]
fn category_folders() {
    assert_eq!(category_folder("j", "2021-01-02", "JPG"), Some(s("j/2021-01-02/pics")));
    assert_eq!(category_folder("j", "2021-01-02", "wav"), Some(s("j/2021-01-02/audio")));
    assert_eq!(category_folder("j", "2021-01-02", "txt"), None);
}

#[test]
fn unsupported_file_seeds_entry_then_fails() {
    let plan = plan_placement("j", "2021-01-02", "txt", "inbox/notes.txt", "notes.txt", false, false);
    assert_eq!(
        plan.actions,
        vec![
            FsAction::CreateDir(s("j/2021-01-02")),
            FsAction::CreateFile(s("j/2021-01-02/entry.md"), s("# 2021-01-02\n\n")),
        ]
    );
    assert_eq!(plan.outcome, Err(PlacementError::UnsupportedFileType));
}

#[test]
fn unsupported_file_into_existing_entry_does_nothing() {
    let plan = plan_placement("j", "2021-01-02", "txt", "inbox/notes.txt", "notes.txt", true, false);
    assert!(plan.actions.is_empty());
    assert_eq!(plan.outcome, Err(PlacementError::UnsupportedFileType));
}

#[test]
fn new_photo_makes_entry_pics_and_moves() {
    let plan = plan_placement("j", "2021-01-02", "jpg", "inbox/a.jpg", "a.jpg", false, false);
    assert_eq!(
        plan.actions,
        vec![
            FsAction::CreateDir(s("j/2021-01-02")),
            FsAction::CreateFile(s("j/2021-01-02/entry.md"), s("# 2021-01-02\n\n")),
            FsAction::CreateDir(s("j/2021-01-02/pics")),
            FsAction::Rename(s("inbox/a.jpg"), s("j/2021-01-02/pics/a.jpg")),
        ]
    );
    assert_eq!(plan.outcome, Ok(()));
}

#[test]
fn second_run_creates_nothing_again() {
    // First run: one new photo in an empty archive.
    let first = plan_placement("j", "2021-01-02", "jpg", "inbox/a.jpg", "a.jpg", false, false);
    let pics_made = first
        .actions
        .iter()
        .filter(|a| **a == FsAction::CreateDir(s("j/2021-01-02/pics")))
        .count();
    let moves = first.actions.iter().filter(|a| matches!(a, FsAction::Rename(_, _))).count();
    assert_eq!(pics_made, 1);
    assert_eq!(moves, 1);
    // A further photo of that day finds both folders and only moves.
    let again = plan_placement("j", "2021-01-02", "jpg", "inbox/b.jpg", "b.jpg", true, true);
    assert_eq!(
        again.actions,
        vec![FsAction::Rename(s("inbox/b.jpg"), s("j/2021-01-02/pics/b.jpg"))]
    );
}

#[test]
fn audio_goes_to_audio_folder_of_existing_entry() {
    let plan = plan_placement("j", "2021-03-04", "mp3", "inbox/b.mp3", "b.mp3", true, false);
    assert_eq!(
        plan.actions,
        vec![
            FsAction::CreateDir(s("j/2021-03-04/audio")),
            FsAction::Rename(s("inbox/b.mp3"), s("j/2021-03-04/audio/b.mp3")),
        ]
    );
}
