//! Local overrides: files that are put aside for the length of an operation and brought back after
//! it.

use crate::names::{in_order, sorted_texts};
use crate::text::{
    cat2, cat3, copy_texts, has_text, lemma_index_of_char, lemma_split_on_head, lower_text, same,
    split_char, split_on, starts_with, strip_prefix, strs, to_lower, trim, trim_of,
};
use base64::Engine;
use vstd::prelude::*;

verus! {

/// The `overrides` section of the settings.
#[derive(Debug)]
pub struct OverridesConfig {
    pub paths: Vec<String>,
    /// The commands that put the overrides in place.
    pub apply: Vec<String>,
}

#[derive(Debug, Clone, Copy, PartialEq, Eq, Structural)]
pub enum Phase {
    /// Files are being put aside.
    Preparing,
    Suspended,
    /// The overrides are being put back in place.
    Applying,
}

/// What is saved of a file.
#[derive(Debug)]
pub enum Contents {
    Missing,
    /// The bytes, encoded as text, and the permissions.
    File { data: String, mode: u32 },
    Symlink(String),
}

#[derive(Debug)]
pub struct SavedFile {
    pub path: String,
    /// It is in the index.
    pub indexed: bool,
    /// Git was told not to look at it.
    pub skip: bool,
    pub contents: Contents,
}

/// What is saved while overrides are suspended.
#[derive(Debug)]
pub struct OverridesState {
    pub config: OverridesConfig,
    pub phase: Phase,
    /// The overrides are being removed, and are not to be applied again.
    pub removing: bool,
    pub head: String,
    pub tree: String,
    pub files: Vec<SavedFile>,
}

/// Why overrides are not handled.
#[derive(Debug)]
pub enum OverridesError {
    BlankConfig,
    NoConfig,
    StagedChanges,
    SparseCheckout,
    /// Recovery is pending, in that worktree.
    Pending(String),
    BusyRemoving,
    BusySuspending,
    /// The overrides stay suspended while an operation is under way.
    StaySuspended,
    BusyEnabling,
    UncommittedEdits,
    RecoveryFirst,
    BusyRemove,
    /// The commit or the index changed; the contents are in that file.
    GitChanged(String),
}

impl OverridesError {
    pub open spec fn text(self) -> Seq<char> {
        match self {
            OverridesError::BlankConfig =>
                "overrides.paths and overrides.apply must be non-empty lists of non-empty strings"@,
            OverridesError::NoConfig => "No [overrides] configuration found"@,
            OverridesError::StagedChanges =>
                "An override path has staged changes. Commit or unstage them before managing overrides; the index was left intact."@,
            OverridesError::SparseCheckout =>
                "Local overrides are not supported with sparse checkout"@,
            OverridesError::Pending(root) =>
                "Local overrides are suspended or awaiting recovery. Run 'kin continue' or 'kin abort' in "@
                + root@ + "."@,
            OverridesError::BusyRemoving =>
                "Cannot finish removing overrides while a Git or Kindra operation is in progress."@,
            OverridesError::BusySuspending =>
                "Cannot suspend local overrides while a Git or Kindra operation is in progress. Finish it with continue/abort first."@,
            OverridesError::StaySuspended =>
                "Local overrides must remain suspended while an operation is in progress. Use 'kin continue' or 'kin abort'."@,
            OverridesError::BusyEnabling =>
                "Cannot re-enable local overrides while a Git or Kindra operation is in progress."@,
            OverridesError::UncommittedEdits =>
                "Override paths have uncommitted changes. Commit, stash, or move those edits before running 'kin overrides apply'. Overrides remain disabled."@,
            OverridesError::RecoveryFirst =>
                "Local override recovery is pending. Run 'kin continue' or 'kin abort' before removing overrides."@,
            OverridesError::BusyRemove =>
                "Cannot remove local overrides while a Git or Kindra operation is in progress."@,
            OverridesError::GitChanged(path) =>
                "Git changed during override preparation. Saved override contents are in "@ + path@
                + "; restore them manually before removing this state."@,
        }
    }

    pub fn message(&self) -> (r: String)
        ensures
            r@ == self.text(),
    {
        match self {
            OverridesError::BlankConfig =>
                "overrides.paths and overrides.apply must be non-empty lists of non-empty strings".to_owned(),
            OverridesError::NoConfig => "No [overrides] configuration found".to_owned(),
            OverridesError::StagedChanges =>
                "An override path has staged changes. Commit or unstage them before managing overrides; the index was left intact.".to_owned(),
            OverridesError::SparseCheckout =>
                "Local overrides are not supported with sparse checkout".to_owned(),
            OverridesError::Pending(root) => cat3(
                "Local overrides are suspended or awaiting recovery. Run 'kin continue' or 'kin abort' in ",
                root.as_str(),
                ".",
            ),
            OverridesError::BusyRemoving =>
                "Cannot finish removing overrides while a Git or Kindra operation is in progress.".to_owned(),
            OverridesError::BusySuspending =>
                "Cannot suspend local overrides while a Git or Kindra operation is in progress. Finish it with continue/abort first.".to_owned(),
            OverridesError::StaySuspended =>
                "Local overrides must remain suspended while an operation is in progress. Use 'kin continue' or 'kin abort'.".to_owned(),
            OverridesError::BusyEnabling =>
                "Cannot re-enable local overrides while a Git or Kindra operation is in progress.".to_owned(),
            OverridesError::UncommittedEdits =>
                "Override paths have uncommitted changes. Commit, stash, or move those edits before running 'kin overrides apply'. Overrides remain disabled.".to_owned(),
            OverridesError::RecoveryFirst =>
                "Local override recovery is pending. Run 'kin continue' or 'kin abort' before removing overrides.".to_owned(),
            OverridesError::BusyRemove =>
                "Cannot remove local overrides while a Git or Kindra operation is in progress.".to_owned(),
            OverridesError::GitChanged(path) => cat3(
                "Git changed during override preparation. Saved override contents are in ",
                path.as_str(),
                "; restore them manually before removing this state.",
            ),
        }
    }
}

/// The list holds something, and nothing blank.
pub open spec fn is_filled(v: Seq<Seq<char>>) -> bool {
    v.len() > 0 && forall|i: int| 0 <= i < v.len() ==> trim_of(#[trigger] v[i]).len() > 0
}

fn filled(v: &Vec<String>) -> (r: bool)
    ensures
        r == is_filled(strs(v@)),
{
    let ghost all = strs(v@);
    let mut i: usize = 0;
    while i < v.len()
        invariant
            i <= v@.len(),
            all == strs(v@),
            forall|k: int| 0 <= k < i ==> trim_of(#[trigger] all[k]).len() > 0,
        decreases v@.len() - i,
    {
        assert(all[i as int] == v@[i as int]@);
        let t = trim(v[i].as_str());
        if t.as_str().is_empty() {
            return false;
        }
        i += 1;
    }
    v.len() > 0
}

/// Takes the settings if both lists hold something, and nothing blank.
pub fn check_config(config: Option<OverridesConfig>) -> (r: Result<
    Option<OverridesConfig>,
    OverridesError,
>)
    ensures
        match config {
            None => r matches Ok(None),
            Some(c) => if is_filled(strs(c.paths@)) && is_filled(strs(c.apply@)) {
                r matches Ok(Some(k)) && k == c
            } else {
                r matches Err(OverridesError::BlankConfig)
            },
        },
{
    match config {
        None => Ok(None),
        Some(c) => {
            if filled(&c.paths) && filled(&c.apply) {
                Ok(Some(c))
            } else {
                Err(OverridesError::BlankConfig)
            }
        },
    }
}

/// The words behind `git` for a listing of the override paths.
pub fn path_args(words: &Vec<String>, config: &OverridesConfig) -> (r: Vec<String>)
    ensures
        strs(r@) == strs(words@).push("--"@) + strs(config.paths@),
{
    let mut out = copy_texts(words);
    out.push("--".to_owned());
    let mut more = copy_texts(&config.paths);
    out.append(&mut more);
    assert(strs(out@) =~= strs(words@).push("--"@) + strs(config.paths@));
    out
}

/// The texts that are not empty.
pub open spec fn non_empty(v: Seq<Seq<char>>) -> Seq<Seq<char>>
    decreases v.len(),
{
    if v.len() == 0 {
        Seq::empty()
    } else if v.last().len() == 0 {
        non_empty(v.drop_last())
    } else {
        non_empty(v.drop_last()).push(v.last())
    }
}

/// The paths that git lists, each with a zero behind it.
pub fn split_paths(stdout: &str) -> (r: Vec<String>)
    ensures
        strs(r@) == non_empty(split_on(stdout@, '\0')),
{
    let parts = split_char(stdout, '\0');
    let ghost all = strs(parts@);
    let mut out: Vec<String> = Vec::new();
    let mut i: usize = 0;
    assert(strs(out@) =~= Seq::<Seq<char>>::empty());
    while i < parts.len()
        invariant
            i <= parts@.len(),
            all == strs(parts@),
            strs(out@) == non_empty(all.take(i as int)),
        decreases parts@.len() - i,
    {
        proof {
            assert(all.take(i + 1).drop_last() =~= all.take(i as int));
            assert(all.take(i + 1).last() == parts@[i as int]@);
        }
        if !parts[i].as_str().is_empty() {
            let ghost before = out@;
            out.push(parts[i].clone());
            assert(strs(out@) =~= strs(before).push(parts@[i as int]@));
        }
        i += 1;
    }
    assert(all.take(all.len() as int) =~= all);
    out
}

/// The paths, each with a zero behind it.
pub open spec fn joined_paths(v: Seq<Seq<char>>) -> Seq<char>
    decreases v.len(),
{
    if v.len() == 0 {
        Seq::empty()
    } else {
        v[0].push('\0') + joined_paths(v.drop_first())
    }
}

/// The paths as git reads them, each with a zero behind it.
pub fn path_input(paths: &Vec<String>) -> (r: String)
    ensures
        r@ == joined_paths(strs(paths@)),
{
    let ghost all = strs(paths@);
    let mut out = String::new();
    let mut i: usize = 0;
    assert(all.skip(0) =~= all);
    assert(out@ + joined_paths(all) =~= joined_paths(all));
    while i < paths.len()
        invariant
            i <= paths@.len(),
            all == strs(paths@),
            out@ + joined_paths(all.skip(i as int)) == joined_paths(all),
        decreases paths@.len() - i,
    {
        let ghost rest = all.skip(i as int);
        let ghost before = out@;
        proof {
            assert(rest[0] == paths@[i as int]@);
            assert(rest.drop_first() =~= all.skip(i + 1));
        }
        out = cat2(out.as_str(), paths[i].as_str());
        out.push('\0');
        assert(out@ + joined_paths(all.skip(i + 1)) =~= before + joined_paths(rest));
        i += 1;
    }
    assert(all.skip(all.len() as int) =~= Seq::<Seq<char>>::empty());
    assert(out@ + Seq::<char>::empty() =~= out@);
    out
}

proof fn lemma_split_joined(v: Seq<Seq<char>>)
    requires
        forall|i: int| 0 <= i < v.len() ==> !(#[trigger] v[i]).contains('\0'),
    ensures
        split_on(joined_paths(v), '\0') == v.push(Seq::<char>::empty()),
    decreases v.len(),
{
    if v.len() == 0 {
        lemma_index_of_char(Seq::<char>::empty(), '\0');
        assert(split_on(joined_paths(v), '\0') =~= v.push(Seq::<char>::empty()));
    } else {
        let rest = v.drop_first();
        assert forall|i: int| 0 <= i < rest.len() implies !(#[trigger] rest[i]).contains('\0') by {
            assert(rest[i] == v[i + 1]);
        }
        lemma_split_joined(rest);
        lemma_split_on_head(v[0], '\0', joined_paths(rest));
        assert(seq![v[0]] + rest.push(Seq::<char>::empty()) =~= v.push(Seq::<char>::empty()));
    }
}

proof fn lemma_non_empty_same(v: Seq<Seq<char>>)
    requires
        forall|i: int| 0 <= i < v.len() ==> (#[trigger] v[i]).len() > 0,
    ensures
        non_empty(v) == v,
    decreases v.len(),
{
    if v.len() > 0 {
        let rest = v.drop_last();
        assert forall|i: int| 0 <= i < rest.len() implies (#[trigger] rest[i]).len() > 0 by {
            assert(rest[i] == v[i]);
        }
        lemma_non_empty_same(rest);
        assert(v[v.len() - 1].len() > 0);
        assert(rest.push(v.last()) =~= v);
    } else {
        assert(non_empty(v) =~= v);
    }
}

/// Paths that are written for git are read back as they were.
pub proof fn law_paths_read_back(v: Seq<Seq<char>>)
    requires
        forall|i: int| 0 <= i < v.len() ==> !(#[trigger] v[i]).contains('\0') && v[i].len() > 0,
    ensures
        non_empty(split_on(joined_paths(v), '\0')) == v,
{
    lemma_split_joined(v);
    lemma_non_empty_same(v);
    assert(v.push(Seq::<char>::empty()).drop_last() =~= v);
}

/// The paths of `git ls-files -v` that git was told not to look at.
pub open spec fn skipped_of(v: Seq<Seq<char>>) -> Seq<Seq<char>>
    decreases v.len(),
{
    if v.len() == 0 {
        Seq::empty()
    } else if "S "@.is_prefix_of(v.last()) || "s "@.is_prefix_of(v.last()) {
        skipped_of(v.drop_last()).push(v.last().skip(2))
    } else {
        skipped_of(v.drop_last())
    }
}

/// The paths of `git ls-files -v` that git was told not to look at.
pub fn skipped_paths(listing: &Vec<String>) -> (r: Vec<String>)
    ensures
        strs(r@) == skipped_of(strs(listing@)),
{
    let ghost all = strs(listing@);
    let mut out: Vec<String> = Vec::new();
    let mut i: usize = 0;
    assert(strs(out@) =~= Seq::<Seq<char>>::empty());
    while i < listing.len()
        invariant
            i <= listing@.len(),
            all == strs(listing@),
            strs(out@) == skipped_of(all.take(i as int)),
        decreases listing@.len() - i,
    {
        let line = listing[i].as_str();
        proof {
            assert(all.take(i + 1).drop_last() =~= all.take(i as int));
            assert(all.take(i + 1).last() == line@);
            reveal_strlit("S ");
            reveal_strlit("s ");
        }
        let ghost before = out@;
        match strip_prefix(line, "S ") {
            Some(rest) => {
                out.push(rest);
                assert(strs(out@) =~= strs(before).push(line@.skip(2)));
            },
            None => match strip_prefix(line, "s ") {
                Some(rest) => {
                    out.push(rest);
                    assert(strs(out@) =~= strs(before).push(line@.skip(2)));
                },
                None => {},
            },
        }
        i += 1;
    }
    assert(all.take(all.len() as int) =~= all);
    out
}

/// All paths that overrides may be at: those in the index, those that git does not know, and those
/// that it ignores; in order, each once.
pub fn override_names(indexed: &Vec<String>, others: &Vec<String>, ignored: &Vec<String>) -> (r: Vec<
    String,
>)
    ensures
        in_order(strs(r@)),
        forall|t: Seq<char>| #[trigger]
            strs(r@).contains(t) <==> strs(indexed@).contains(t) || strs(others@).contains(t)
                || strs(ignored@).contains(t),
{
    let mut all = copy_texts(indexed);
    let mut two = copy_texts(others);
    let mut three = copy_texts(ignored);
    all.append(&mut two);
    all.append(&mut three);
    let ghost a = strs(indexed@);
    let ghost b = strs(others@);
    let ghost c = strs(ignored@);
    assert(strs(all@) =~= a + b + c);
    let r = sorted_texts(&all);
    proof {
        assert forall|t: Seq<char>| #[trigger]
            strs(r@).contains(t) <==> a.contains(t) || b.contains(t) || c.contains(t) by {
            assert(strs(r@).contains(t) <==> (a + b + c).contains(t));
            let whole = a + b + c;
            if a.contains(t) {
                assert(whole[a.index_of(t)] == t);
            }
            if b.contains(t) {
                assert(whole[a.len() + b.index_of(t)] == t);
            }
            if c.contains(t) {
                assert(whole[a.len() + b.len() + c.index_of(t)] == t);
            }
            if whole.contains(t) {
                let k = whole.index_of(t);
                if k < a.len() {
                    assert(a[k] == t);
                } else if k < a.len() + b.len() {
                    assert(b[k - a.len()] == t);
                } else {
                    assert(c[k - a.len() - b.len()] == t);
                }
            }
        }
    }
    r
}

/// The path leads out of the worktree, or into git's own directory.
pub open spec fn is_unsafe(name: Seq<char>) -> bool {
    let parts = split_on(name, '/');
    ||| "/"@.is_prefix_of(name)
    ||| parts.len() > 0 && parts[0] == "."@
    ||| exists|i: int|
        0 <= i < parts.len() && (#[trigger] parts[i] == ".."@ || lower_text(parts[i]) == ".git"@)
}

/// Whether a path leads out of the worktree, or into git's own directory.
pub fn unsafe_path(name: &str) -> (r: bool)
    ensures
        r == is_unsafe(name@),
{
    if starts_with(name, "/") {
        return true;
    }
    let parts = split_char(name, '/');
    let ghost all = strs(parts@);
    if parts.len() > 0 {
        assert(all[0] == parts@[0]@);
        if same(parts[0].as_str(), ".") {
            return true;
        }
    }
    let mut i: usize = 0;
    while i < parts.len()
        invariant
            i <= parts@.len(),
            all == strs(parts@),
            all == split_on(name@, '/'),
            forall|k: int|
                0 <= k < i ==> #[trigger] all[k] != ".."@ && lower_text(all[k]) != ".git"@,
        decreases parts@.len() - i,
    {
        assert(all[i as int] == parts@[i as int]@);
        let low = to_lower(parts[i].as_str());
        if same(parts[i].as_str(), "..") || same(low.as_str(), ".git") {
            return true;
        }
        i += 1;
    }
    false
}

/// The text of bytes in base64, with the standard alphabet and padding.
pub uninterp spec fn base64_text(bytes: Seq<u8>) -> Seq<char>;

/// The bytes of a text in base64, where it is one.
pub uninterp spec fn base64_bytes(text: Seq<char>) -> Option<Seq<u8>>;

/// The error of a text that is not base64.
#[verifier::external_type_specification]
#[verifier::external_body]
pub struct ExDecodeError(base64::DecodeError);

/// `base64::Engine::encode` with the engine `STANDARD`. Its result depends on the bytes alone, and
/// decodes to them.
#[verifier::external_body]
fn base64_encode(bytes: &Vec<u8>) -> (r: String)
    requires
        bytes@.len() <= isize::MAX / 2,
    ensures
        r@ == base64_text(bytes@),
        base64_bytes(r@) == Some(bytes@),
{
    base64::engine::general_purpose::STANDARD.encode(bytes)
}

/// `base64::Engine::decode` with the engine `STANDARD`. Whether it succeeds, and with which bytes,
/// depends on the text alone.
#[verifier::external_body]
fn base64_decode(text: &str) -> (r: Result<Vec<u8>, base64::DecodeError>)
    ensures
        match r {
            Ok(bytes) => base64_bytes(text@) == Some(bytes@),
            Err(_) => base64_bytes(text@) is None,
        },
{
    base64::engine::general_purpose::STANDARD.decode(text)
}

/// A file as it is on disk.
#[derive(Debug)]
pub enum FileOnDisk {
    Missing,
    /// The bytes and the permissions.
    File(Vec<u8>, u32),
    /// A link and where it leads.
    Symlink(String),
}

pub enum FileView {
    Missing,
    File(Seq<u8>, u32),
    Symlink(Seq<char>),
}

impl View for FileOnDisk {
    type V = FileView;

    open spec fn view(&self) -> FileView {
        match *self {
            FileOnDisk::Missing => FileView::Missing,
            FileOnDisk::File(bytes, mode) => FileView::File(bytes@, mode),
            FileOnDisk::Symlink(target) => FileView::Symlink(target@),
        }
    }
}

/// What is brought back from what was saved.
pub open spec fn saved_file(c: Contents) -> Option<FileView> {
    match c {
        Contents::Missing => Some(FileView::Missing),
        Contents::File { data, mode } => match base64_bytes(data@) {
            Some(bytes) => Some(FileView::File(bytes, mode)),
            None => None,
        },
        Contents::Symlink(target) => Some(FileView::Symlink(target@)),
    }
}

/// What is saved of a file: its contents as text.
pub open spec fn is_saved(c: Contents, file: FileOnDisk) -> bool {
    match file {
        FileOnDisk::Missing => c is Missing,
        FileOnDisk::File(bytes, mode) => c matches Contents::File { data, mode: m } && data@
            == base64_text(bytes@) && m == mode,
        FileOnDisk::Symlink(target) => c matches Contents::Symlink(t) && t@ == target@,
    }
}

/// What is saved of a file. The same file is brought back from it.
pub fn save_contents(file: &FileOnDisk) -> (r: Contents)
    requires
        file matches FileOnDisk::File(bytes, _) ==> bytes@.len() <= isize::MAX / 2,
    ensures
        saved_file(r) == Some(file@),
        is_saved(r, *file),
{
    match file {
        FileOnDisk::Missing => Contents::Missing,
        FileOnDisk::File(bytes, mode) => Contents::File { data: base64_encode(bytes), mode: *mode },
        FileOnDisk::Symlink(target) => Contents::Symlink(target.clone()),
    }
}

/// What was saved of a file cannot be read.
#[derive(Debug)]
pub struct DamagedContents {
}

/// The file that is brought back from what was saved.
pub fn restore_contents(contents: &Contents) -> (r: Result<FileOnDisk, DamagedContents>)
    ensures
        match r {
            Ok(file) => saved_file(*contents) == Some(file@),
            Err(_) => saved_file(*contents) is None,
        },
{
    match contents {
        Contents::Missing => Ok(FileOnDisk::Missing),
        Contents::File { data, mode } => match base64_decode(data.as_str()) {
            Ok(bytes) => Ok(FileOnDisk::File(bytes, *mode)),
            Err(_) => Err(DamagedContents {  }),
        },
        Contents::Symlink(target) => Ok(FileOnDisk::Symlink(target.clone())),
    }
}

/// What is saved of the file at a path.
pub fn save_file(name: &str, indexed: &Vec<String>, skipped: &Vec<String>, file: &FileOnDisk) -> (r:
    SavedFile)
    requires
        file matches FileOnDisk::File(bytes, _) ==> bytes@.len() <= isize::MAX / 2,
    ensures
        r.path@ == name@,
        r.indexed == strs(indexed@).contains(name@),
        r.skip == strs(skipped@).contains(name@),
        saved_file(r.contents) == Some(file@),
        is_saved(r.contents, *file),
{
    SavedFile {
        path: name.to_owned(),
        indexed: has_text(indexed, name),
        skip: has_text(skipped, name),
        contents: save_contents(file),
    }
}

/// The state that is saved before anything is put aside.
pub fn snapshot_state(
    config: OverridesConfig,
    files: Vec<SavedFile>,
    head: String,
    tree: String,
    removing: bool,
) -> (r: OverridesState)
    ensures
        r.config == config,
        r.phase == Phase::Preparing,
        r.removing == removing,
        r.head == head,
        r.tree == tree,
        r.files == files,
{
    OverridesState { config, phase: Phase::Preparing, removing, head, tree, files }
}

/// The paths in the index, of all files or of those with that flag.
pub open spec fn indexed_of(files: Seq<SavedFile>, skip: Option<bool>) -> Seq<Seq<char>>
    decreases files.len(),
{
    if files.len() == 0 {
        Seq::empty()
    } else {
        let f = files.last();
        let rest = indexed_of(files.drop_last(), skip);
        if f.indexed && (skip is None || skip == Some(f.skip)) {
            rest.push(f.path@)
        } else {
            rest
        }
    }
}

/// The paths in the index, of all saved files or of those with that flag.
pub fn indexed_paths(files: &Vec<SavedFile>, skip: Option<bool>) -> (r: Vec<String>)
    ensures
        strs(r@) == indexed_of(files@, skip),
{
    let mut out: Vec<String> = Vec::new();
    let mut i: usize = 0;
    assert(strs(out@) =~= Seq::<Seq<char>>::empty());
    while i < files.len()
        invariant
            i <= files@.len(),
            strs(out@) == indexed_of(files@.take(i as int), skip),
        decreases files@.len() - i,
    {
        assert(files@.take(i + 1).drop_last() =~= files@.take(i as int));
        let f = &files[i];
        let wanted = match skip {
            None => true,
            Some(s) => s == f.skip,
        };
        if f.indexed && wanted {
            let ghost before = out@;
            out.push(f.path.clone());
            assert(strs(out@) =~= strs(before).push(f.path@));
        }
        i += 1;
    }
    assert(files@.take(files@.len() as int) =~= files@);
    out
}

/// Some saved file is not in the index.
pub open spec fn some_unindexed(files: Seq<SavedFile>) -> bool {
    exists|i: int| 0 <= i < files.len() && !(#[trigger] files[i]).indexed
}

/// How git is called to set or clear the flag that it does not look at paths.
pub fn flag_args(skip: bool) -> (r: Vec<String>)
    ensures
        strs(r@) == seq![
            "update-index"@,
            if skip {
                "--skip-worktree"@
            } else {
                "--no-skip-worktree"@
            },
            "-z"@,
            "--stdin"@,
        ],
{
    let flag = if skip {
        "--skip-worktree"
    } else {
        "--no-skip-worktree"
    };
    let r = crate::text::list(&["update-index", flag, "-z", "--stdin"]);
    assert(strs(r@) =~= seq!["update-index"@, flag@, "-z"@, "--stdin"@]);
    r
}

/// Whether what was put aside may be brought back: only onto the commit and the index that it was
/// taken from.
pub fn check_unchanged(state: &OverridesState, head: &str, tree: &str, state_path: &str) -> (r: Result<
    (),
    OverridesError,
>)
    ensures
        if head@ == state.head@ && tree@ == state.tree@ {
            r is Ok
        } else {
            r matches Err(OverridesError::GitChanged(p)) && p@ == state_path@
        },
{
    if same(head, state.head.as_str()) && same(tree, state.tree.as_str()) {
        Ok(())
    } else {
        Err(OverridesError::GitChanged(state_path.to_owned()))
    }
}

} // verus!
