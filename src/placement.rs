//! Where a file goes in the archive, and the filesystem steps that put it
//! there.
use crate::category::{category_of, classify, subfolder_of, FileCategory};
use vstd::prelude::*;

verus! {

/// `b` appended to the path `a` as one more component.
pub open spec fn path_join(a: Seq<char>, b: Seq<char>) -> Seq<char> {
    if a.len() == 0 {
        b
    } else if a.last() == '/' {
        a + b
    } else {
        a + seq!['/'] + b
    }
}

/// Appends `b` to the path `a` as one more component.
pub fn join_path(a: &str, b: &str) -> (r: String)
    ensures
        r@ == path_join(a@, b@),
{
    proof {
        reveal_strlit("/");
    }
    let n = a.unicode_len();
    if n == 0 {
        return String::from_str(b);
    }
    let s = String::from_str(a);
    if a.get_char(n - 1) == '/' {
        s.concat(b)
    } else {
        let t = s.concat("/");
        t.concat(b)
    }
}

/// The folder of the archive under `root` that holds the entry of `date`.
pub open spec fn entry_folder_path(root: Seq<char>, date: Seq<char>) -> Seq<char> {
    path_join(root, date)
}

pub open spec fn entry_note_name() -> Seq<char> {
    seq!['e', 'n', 't', 'r', 'y', '.', 'm', 'd']
}

/// The note of the entry of `date`.
pub open spec fn entry_note_path(root: Seq<char>, date: Seq<char>) -> Seq<char> {
    path_join(entry_folder_path(root, date), entry_note_name())
}

/// What a new entry's note holds: a heading with the date and a blank line.
pub open spec fn entry_seed_text(date: Seq<char>) -> Seq<char> {
    seq!['#', ' '] + date + seq!['\n', '\n']
}

/// The folder that holds files of category `c` in the entry of `date`.
pub open spec fn category_folder_path(root: Seq<char>, date: Seq<char>, c: FileCategory) -> Option<Seq<char>> {
    match subfolder_of(c) {
        Some(sub) => Some(path_join(entry_folder_path(root, date), sub)),
        None => None,
    }
}

/// The folder of the archive under `root` that holds the entry of `date`.
pub fn entry_folder(root: &str, date: &str) -> (r: String)
    ensures
        r@ == entry_folder_path(root@, date@),
{
    join_path(root, date)
}

/// The path of the note of the entry of `date`.
pub fn entry_note(root: &str, date: &str) -> (r: String)
    ensures
        r@ == entry_note_path(root@, date@),
{
    proof {
        reveal_strlit("entry.md");
    }
    assert("entry.md"@ =~= entry_note_name());
    let folder = entry_folder(root, date);
    join_path(folder.as_str(), "entry.md")
}

/// The text a new entry's note starts with.
pub fn entry_seed(date: &str) -> (r: String)
    ensures
        r@ == entry_seed_text(date@),
{
    proof {
        reveal_strlit("# ");
        reveal_strlit("\n\n");
    }
    let s = String::from_str("# ");
    let s = s.concat(date);
    let r = s.concat("\n\n");
    assert(r@ =~= entry_seed_text(date@));
    r
}

fn subfolder_name(c: FileCategory) -> (r: Option<&'static str>)
    ensures
        match r {
            Some(s) => subfolder_of(c) == Some(s@),
            None => subfolder_of(c) is None,
        },
{
    proof {
        reveal_strlit("pics");
        reveal_strlit("audio");
    }
    match c {
        FileCategory::Photo => {
            assert("pics"@ =~= seq!['p', 'i', 'c', 's']);
            Some("pics")
        },
        FileCategory::Audio => {
            assert("audio"@ =~= seq!['a', 'u', 'd', 'i', 'o']);
            Some("audio")
        },
        FileCategory::Unclassified => None,
    }
}

/// The folder that holds files with this extension in the entry of `date`;
/// `None` for a file whose type the archive does not hold.
pub fn category_folder(root: &str, date: &str, extension: &str) -> (r: Option<String>)
    ensures
        match r {
            Some(p) => category_folder_path(root@, date@, category_of(extension@)) == Some(p@),
            None => category_folder_path(root@, date@, category_of(extension@)) is None,
        },
{
    match subfolder_name(classify(extension)) {
        Some(sub) => {
            let folder = entry_folder(root, date);
            Some(join_path(folder.as_str(), sub))
        },
        None => None,
    }
}

/// One step on the filesystem.
#[derive(Clone, Debug, PartialEq, Eq)]
pub enum FsAction {
    /// Create a directory and its missing parents.
    CreateDir(String),
    /// Create a file with the given text, unless one already exists there.
    CreateFile(String, String),
    /// Move a file from the first path to the second, replacing a file of
    /// that name.
    Rename(String, String),
}

pub enum ActionView {
    CreateDir(Seq<char>),
    CreateFile(Seq<char>, Seq<char>),
    Rename(Seq<char>, Seq<char>),
}

impl View for FsAction {
    type V = ActionView;

    open spec fn view(&self) -> ActionView {
        match self {
            FsAction::CreateDir(p) => ActionView::CreateDir(p@),
            FsAction::CreateFile(p, t) => ActionView::CreateFile(p@, t@),
            FsAction::Rename(a, b) => ActionView::Rename(a@, b@),
        }
    }
}

/// Why a file could not be placed.
#[derive(Clone, Copy, Debug, PartialEq, Eq, Structural)]
pub enum PlacementError {
    /// The archive has no folder for files of this type.
    UnsupportedFileType,
}

/// The steps that place a file, to be carried out in order, and how the
/// placement ends once they have all succeeded.
pub struct PlacementPlan {
    pub actions: Vec<FsAction>,
    pub outcome: Result<(), PlacementError>,
}

/// The steps that seed the entry of `date` where its folder is missing.
pub open spec fn seed_actions(root: Seq<char>, date: Seq<char>, folder_exists: bool) -> Seq<ActionView> {
    if folder_exists {
        seq![]
    } else {
        seq![
            ActionView::CreateDir(entry_folder_path(root, date)),
            ActionView::CreateFile(entry_note_path(root, date), entry_seed_text(date)),
        ]
    }
}

/// The steps that place the file at `source`, named `name` and with
/// extension `ext`, into the entry of `date`.
pub open spec fn placement_actions(
    root: Seq<char>,
    date: Seq<char>,
    ext: Seq<char>,
    source: Seq<char>,
    name: Seq<char>,
    folder_exists: bool,
    subfolder_exists: bool,
) -> Seq<ActionView> {
    let seed = seed_actions(root, date, folder_exists);
    match category_folder_path(root, date, category_of(ext)) {
        Some(target) => {
            let make = if subfolder_exists { seq![] } else { seq![ActionView::CreateDir(target)] };
            seed + make + seq![ActionView::Rename(source, path_join(target, name))]
        },
        None => seed,
    }
}

pub open spec fn placement_outcome(ext: Seq<char>) -> Result<(), PlacementError> {
    match category_of(ext) {
        FileCategory::Unclassified => Err(PlacementError::UnsupportedFileType),
        _ => Ok(()),
    }
}

/// Plans how the file at `source`, named `name`, with extension `extension`,
/// is filed under the entry of `date` in the archive at `root`. The entry's
/// folder and note are made where the folder is missing, also for a file
/// whose type the archive does not hold, which then fails; a category
/// subfolder is made where missing; the file moves in under its own name.
pub fn plan_placement(
    root: &str,
    date: &str,
    extension: &str,
    source: &str,
    name: &str,
    folder_exists: bool,
    subfolder_exists: bool,
) -> (r: PlacementPlan)
    ensures
        r.actions@.map_values(|a: FsAction| a@) == placement_actions(
            root@,
            date@,
            extension@,
            source@,
            name@,
            folder_exists,
            subfolder_exists,
        ),
        r.outcome == placement_outcome(extension@),
{
    let mut actions: Vec<FsAction> = Vec::new();
    if !folder_exists {
        actions.push(FsAction::CreateDir(entry_folder(root, date)));
        actions.push(FsAction::CreateFile(entry_note(root, date), entry_seed(date)));
    }
    let ghost seed = actions@.map_values(|a: FsAction| a@);
    assert(seed =~= seed_actions(root@, date@, folder_exists));
    match category_folder(root, date, extension) {
        Some(target) => {
            if !subfolder_exists {
                actions.push(FsAction::CreateDir(target.clone()));
            }
            let destination = join_path(target.as_str(), name);
            actions.push(FsAction::Rename(String::from_str(source), destination));
            assert(actions@.map_values(|a: FsAction| a@) =~= placement_actions(
                root@,
                date@,
                extension@,
                source@,
                name@,
                folder_exists,
                subfolder_exists,
            ));
            PlacementPlan { actions, outcome: Ok(()) }
        },
        None => {
            assert(actions@.map_values(|a: FsAction| a@) =~= placement_actions(
                root@,
                date@,
                extension@,
                source@,
                name@,
                folder_exists,
                subfolder_exists,
            ));
            PlacementPlan { actions, outcome: Err(PlacementError::UnsupportedFileType) }
        },
    }
}

/// A file of a type the archive does not hold, placed into a date whose
/// folder is missing, makes that folder and its note, is not moved, and the
/// placement fails as unsupported.
pub proof fn lemma_unsupported_seeds_entry_and_fails(
    root: Seq<char>,
    date: Seq<char>,
    ext: Seq<char>,
    source: Seq<char>,
    name: Seq<char>,
    subfolder_exists: bool,
)
    requires
        category_of(ext) == FileCategory::Unclassified,
    ensures
        placement_actions(root, date, ext, source, name, false, subfolder_exists) == seq![
            ActionView::CreateDir(entry_folder_path(root, date)),
            ActionView::CreateFile(entry_note_path(root, date), entry_seed_text(date)),
        ],
        placement_outcome(ext) == Err::<(), PlacementError>(PlacementError::UnsupportedFileType),
{
}

/// Once the entry's folder and the category subfolder exist, placing a file
/// creates nothing more: its only step is the move.
pub proof fn lemma_existing_folders_only_move(
    root: Seq<char>,
    date: Seq<char>,
    ext: Seq<char>,
    source: Seq<char>,
    name: Seq<char>,
)
    requires
        category_of(ext) != FileCategory::Unclassified,
    ensures
        placement_actions(root, date, ext, source, name, true, true) == seq![
            ActionView::Rename(
                source,
                path_join(category_folder_path(root, date, category_of(ext))->0, name),
            ),
        ],
        placement_outcome(ext) == Ok::<(), PlacementError>(()),
{
    assert(placement_actions(root, date, ext, source, name, true, true) =~= seq![
        ActionView::Rename(
            source,
            path_join(category_folder_path(root, date, category_of(ext))->0, name),
        ),
    ]);
}

/// The paths that exist after `a` is carried out where `fs` existed.
pub open spec fn apply_action(fs: Set<Seq<char>>, a: ActionView) -> Set<Seq<char>> {
    match a {
        ActionView::CreateDir(p) => fs.insert(p),
        ActionView::CreateFile(p, _) => fs.insert(p),
        ActionView::Rename(from, to) => fs.remove(from).insert(to),
    }
}

/// The paths that exist after the steps `s` are carried out in order.
pub open spec fn apply_actions(fs: Set<Seq<char>>, s: Seq<ActionView>) -> Set<Seq<char>>
    decreases s.len(),
{
    if s.len() == 0 {
        fs
    } else {
        apply_actions(apply_action(fs, s[0]), s.drop_first())
    }
}

/// Filing a new photo twice over is safe: the first run creates the entry's
/// folder, its note and one `pics` folder, and moves the photo there, so the
/// inbox no longer holds it; a later run that finds another photo of that
/// date creates nothing and only moves it.
pub proof fn lemma_second_run_only_moves(
    fs: Set<Seq<char>>,
    root: Seq<char>,
    date: Seq<char>,
    ext: Seq<char>,
    source: Seq<char>,
    name: Seq<char>,
    other_ext: Seq<char>,
    other_source: Seq<char>,
    other_name: Seq<char>,
)
    requires
        category_of(ext) == FileCategory::Photo,
        category_of(other_ext) == FileCategory::Photo,
        !fs.contains(entry_folder_path(root, date)),
        fs.contains(source),
        source != entry_folder_path(root, date),
        source != entry_note_path(root, date),
        source != category_folder_path(root, date, FileCategory::Photo)->0,
        source != path_join(category_folder_path(root, date, FileCategory::Photo)->0, name),
    ensures
        ({
            let folder = entry_folder_path(root, date);
            let pics = category_folder_path(root, date, FileCategory::Photo)->0;
            let first = placement_actions(root, date, ext, source, name, false, false);
            let after = apply_actions(fs, first);
            &&& first == seq![
                ActionView::CreateDir(folder),
                ActionView::CreateFile(entry_note_path(root, date), entry_seed_text(date)),
                ActionView::CreateDir(pics),
                ActionView::Rename(source, path_join(pics, name)),
            ]
            &&& after.contains(folder)
            &&& after.contains(entry_note_path(root, date))
            &&& after.contains(pics)
            &&& after.contains(path_join(pics, name))
            &&& !after.contains(source)
            &&& placement_actions(
                root,
                date,
                other_ext,
                other_source,
                other_name,
                after.contains(folder),
                after.contains(pics),
            ) == seq![ActionView::Rename(other_source, path_join(pics, other_name))]
        }),
{
    let folder = entry_folder_path(root, date);
    let note = entry_note_path(root, date);
    let pics = category_folder_path(root, date, FileCategory::Photo)->0;
    let dest = path_join(pics, name);
    let first = placement_actions(root, date, ext, source, name, false, false);
    assert(first =~= seq![
        ActionView::CreateDir(folder),
        ActionView::CreateFile(note, entry_seed_text(date)),
        ActionView::CreateDir(pics),
        ActionView::Rename(source, dest),
    ]);
    let s1 = fs.insert(folder);
    let s2 = s1.insert(note);
    let s3 = s2.insert(pics);
    let s4 = s3.remove(source).insert(dest);
    let t1 = first.drop_first();
    let t2 = t1.drop_first();
    let t3 = t2.drop_first();
    let t4 = t3.drop_first();
    assert(t4 =~= Seq::<ActionView>::empty());
    assert(apply_actions(s4, t4) == s4);
    assert(apply_actions(s3, t3) == apply_actions(s4, t4));
    assert(apply_actions(s2, t2) == apply_actions(s3, t3));
    assert(apply_actions(s1, t1) == apply_actions(s2, t2));
    assert(apply_actions(fs, first) == apply_actions(s1, t1));
    assert(s4.contains(folder));
    assert(s4.contains(note));
    assert(s4.contains(pics));
    lemma_existing_folders_only_move(root, date, other_ext, other_source, other_name);
}

} // verus!
