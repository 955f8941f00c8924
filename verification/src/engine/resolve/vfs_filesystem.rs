//! The files of a project as a file system for the import resolver: nothing
//! on disk is touched.
use crate::text;
use crate::vfs::Vfs;
use crate::vfs::VfsView;
use oxc_resolver::FileMetadata;
use oxc_resolver::FileSystem;
use oxc_resolver::ResolveError;
use std::path::Component;
use std::path::Path;
use std::path::PathBuf;
use vstd::prelude::*;
use vstd::string::*;

verus! {

/// A path (`std::path::Path`).
#[verifier::external_type_specification]
#[verifier::external_body]
pub struct ExPath(Path);

/// A path that is owned (`std::path::PathBuf`).
#[verifier::external_type_specification]
#[verifier::external_body]
pub struct ExPathBuf(PathBuf);

/// An error of input or output (`std::io::Error`).
#[verifier::external_type_specification]
#[verifier::external_body]
pub struct ExIoError(std::io::Error);

/// What the resolver asks of a path (`oxc_resolver::FileMetadata`).
#[verifier::external_type_specification]
#[verifier::external_body]
pub struct ExFileMetadata(FileMetadata);

/// An error of the resolver (`oxc_resolver::ResolveError`).
#[verifier::external_type_specification]
#[verifier::external_body]
pub struct ExResolveError(ResolveError);

/// A part of a path, as far as it matters for finding a file.
pub enum PathPart<S> {
    /// A name.
    Name(S),
    /// The directory above.
    Parent,
    /// Anything else: the root, a prefix, the directory itself, or a name
    /// that is no text.
    Ignored,
}

/// A part of a path by its characters.
pub open spec fn part_view(part: PathPart<String>) -> PathPart<Seq<char>> {
    match part {
        PathPart::Name(name) => PathPart::Name(name@),
        PathPart::Parent => PathPart::Parent,
        PathPart::Ignored => PathPart::Ignored,
    }
}

/// Parts of a path by their characters.
pub open spec fn parts_view(parts: Seq<PathPart<String>>) -> Seq<PathPart<Seq<char>>> {
    parts.map_values(|p: PathPart<String>| part_view(p))
}

/// The parts that a path holds, in order (`Path::components`).
pub uninterp spec fn path_parts(path: &Path) -> Seq<PathPart<Seq<char>>>;

/// One component of a path, told by its sort.
#[verifier::external_body]
fn part_of(component: Component<'_>) -> (part: PathPart<String>) {
    match component {
        Component::ParentDir => PathPart::Parent,
        Component::CurDir | Component::RootDir | Component::Prefix(_) => PathPart::Ignored,
        Component::Normal(name) => match name.to_str() {
            Some(name) => PathPart::Name(name.to_string()),
            None => PathPart::Ignored,
        },
    }
}

/// A component of a path (`std::path::Component`).
#[verifier::external_type_specification]
#[verifier::external_body]
pub struct ExComponent<'a>(Component<'a>);

/// The text of a path, if it is text (`Path::to_str`).
pub uninterp spec fn path_spelling(path: &Path) -> Option<Seq<char>>;

/// The path that is written `text` (`Path::new`).
#[verifier::external_body]
pub(crate) fn path_of(text: &str) -> (path: &Path)
    ensures
        path_spelling(path) == Some(text@),
{
    Path::new(text)
}

/// The parts among these that lead somewhere.
pub open spec fn leading(parts: Seq<PathPart<Seq<char>>>) -> Seq<PathPart<Seq<char>>>
    decreases parts.len(),
{
    if parts.len() == 0 {
        parts
    } else if parts.last() is Ignored {
        leading(parts.drop_last())
    } else {
        leading(parts.drop_last()).push(parts.last())
    }
}

/// The parts that these pieces of a path stand for: two dots for the directory
/// above, nothing and one dot for no part at all, anything else for a name.
pub open spec fn pieces_parts(pieces: Seq<Seq<char>>) -> Seq<PathPart<Seq<char>>>
    decreases pieces.len(),
{
    if pieces.len() == 0 {
        Seq::empty()
    } else {
        let before = pieces_parts(pieces.drop_last());
        if pieces.last().len() == 0 || pieces.last() == "."@ {
            before
        } else if pieces.last() == ".."@ {
            before.push(PathPart::Parent)
        } else {
            before.push(PathPart::Name(pieces.last()))
        }
    }
}

/// The parts that lead somewhere in a path that is written `text`.
pub open spec fn text_parts(text: Seq<char>) -> Seq<PathPart<Seq<char>>> {
    pieces_parts(text::split(text, '/'))
}

/// The parts that a path holds, in order (`Path::components`). Where every
/// system cuts the path alike, those that lead somewhere are what stands
/// between its slashes: repeated slashes and one at the end make no part, nor
/// does a dot, unless it stands at the start, where it leads nowhere.
#[verifier::external_body]
pub(crate) fn parts_of(path: &Path) -> (parts: Vec<PathPart<String>>)
    ensures
        parts_view(parts@) == path_parts(path),
        path_spelling(path) matches Some(text) ==> text::is_portable_path(text) ==> leading(
            parts_view(parts@),
        ) == text_parts(text),
{
    path.components().map(part_of).collect()
}

/// The names that lead from the top of the project to where a path leads:
/// a name goes down, a parent goes up, and at the top it stays.
pub open spec fn walk_parts(parts: Seq<PathPart<Seq<char>>>) -> Seq<Seq<char>>
    decreases parts.len(),
{
    if parts.len() == 0 {
        Seq::empty()
    } else {
        let before = walk_parts(parts.drop_last());
        match parts.last() {
            PathPart::Name(name) => before.push(name),
            PathPart::Parent => if before.len() == 0 {
                before
            } else {
                before.drop_last()
            },
            PathPart::Ignored => before,
        }
    }
}

/// The key of the file that a path leads to.
pub open spec fn key_of(parts: Seq<PathPart<Seq<char>>>) -> Seq<char> {
    text::join(walk_parts(parts), "/"@)
}

/// The key of the file that a path of these parts leads to.
pub fn normalize_parts(parts: &[PathPart<String>]) -> (key: String)
    ensures
        key@ == key_of(parts_view(parts@)),
{
    let ghost all = parts_view(parts@);
    let mut segments: Vec<String> = Vec::new();
    assert(text::views(segments@) =~= Seq::empty());
    for i in 0..parts.len()
        invariant
            all == parts_view(parts@),
            text::views(segments@) == walk_parts(all.take(i as int)),
    {
        let ghost before = text::views(segments@);
        assert(all.take(i + 1).drop_last() =~= all.take(i as int));
        match &parts[i] {
            PathPart::Name(name) => {
                segments.push(name.clone());
                assert(text::views(segments@) =~= before.push(name@));
            },
            PathPart::Parent => {
                let _top = segments.pop();
                assert(text::views(segments@) =~= walk_parts(all.take(i + 1)));
            },
            PathPart::Ignored => {},
        }
    }
    assert(all.take(parts@.len() as int) =~= all);
    text::join_with(&segments, "/")
}

/// The key of the file that a path that is written `text` leads to.
pub open spec fn text_key(text: Seq<char>) -> Seq<char> {
    key_of(text_parts(text))
}

/// The key of the file that `path` leads to: where every system cuts the path
/// alike, the key that its text gives.
pub open spec fn path_key(path: &Path) -> Seq<char> {
    match path_spelling(path) {
        Some(text) if text::is_portable_path(text) => text_key(text),
        _ => key_of(path_parts(path)),
    }
}

/// The key under which the file that `path` leads to is kept: without a
/// leading slash, and with the parts that lead nowhere or back taken out.
pub fn normalize_key(path: &Path) -> (key: String)
    ensures
        key@ == path_key(path),
{
    let parts = parts_of(path);
    proof {
        lemma_only_leading_parts_count(path_parts(path));
    }
    normalize_parts(&parts)
}

/// What stands at a key.
#[derive(Debug, Clone, Copy, PartialEq, Eq, Structural)]
pub enum EntryKind {
    File,
    Directory,
}

/// Whether some file lies below the directory `key`.
pub open spec fn has_files_below(files: Map<Seq<char>, Seq<u8>>, key: Seq<char>) -> bool {
    exists|p: Seq<char>| #[trigger]
        files.contains_key(p) && (text::trim_end_slashes(key) + "/"@).is_prefix_of(p)
}

/// What stands at `key`: a file that is kept there, or a directory that files
/// lie below. Directories are not kept, but the top always is one.
pub open spec fn entry_at(files: Map<Seq<char>, Seq<u8>>, key: Seq<char>) -> Option<EntryKind> {
    if files.contains_key(key) {
        Some(EntryKind::File)
    } else if key.len() == 0 || has_files_below(files, key) {
        Some(EntryKind::Directory)
    } else {
        None
    }
}

/// What stands at `key`.
pub fn entry_kind(vfs: &Vfs, key: &str) -> (kind: Option<EntryKind>)
    ensures
        kind == entry_at(vfs@.files, key@),
{
    if vfs.file_exists(key) {
        return Some(EntryKind::File);
    }
    if key.unicode_len() == 0 {
        return Some(EntryKind::Directory);
    }
    let mut prefix = text::trim_slashes(key);
    prefix.append("/");
    let paths = vfs.paths();
    for i in 0..paths.len()
        invariant
            text::str_views(paths@) == vfs@.order,
            forall|p: Seq<char>| #[trigger]
                vfs@.order.contains(p) <==> vfs@.files.contains_key(p),
            prefix@ == text::trim_end_slashes(key@) + "/"@,
            !vfs@.files.contains_key(key@),
            forall|k: int| 0 <= k < i ==> !prefix@.is_prefix_of(#[trigger] vfs@.order[k]),
    {
        assert(vfs@.order[i as int] == paths@[i as int]@);
        if text::starts_with(paths[i], &prefix) {
            assert(vfs@.order.contains(paths@[i as int]@));
            return Some(EntryKind::Directory);
        }
    }
    proof {
        if has_files_below(vfs@.files, key@) {
            let p = choose|p: Seq<char>| #[trigger]
                vfs@.files.contains_key(p) && (text::trim_end_slashes(key@)
                    + "/"@).is_prefix_of(p);
            assert(vfs@.order.contains(p));
            assert(vfs@.order[vfs@.order.index_of(p)] == p);
        }
    }
    None
}

/// What metadata says: whether the path is that of a file, of a directory and
/// of a symbolic link.
pub uninterp spec fn metadata_flags(metadata: FileMetadata) -> (bool, bool, bool);

/// Metadata with the given answers (`FileMetadata::new`).
#[verifier::external_body]
fn make_metadata(is_file: bool, is_dir: bool, is_symlink: bool) -> (metadata: FileMetadata)
    ensures
        metadata_flags(metadata) == (is_file, is_dir, is_symlink),
{
    FileMetadata::new(is_file, is_dir, is_symlink)
}

/// What an error says: whether it is of the kind `NotFound`, and its words.
pub uninterp spec fn complaint(error: std::io::Error) -> (bool, Seq<char>);

/// The error of the kind `NotFound` in the words of `key`
/// (`std::io::Error::new`).
#[verifier::external_body]
fn not_found(key: &str) -> (error: std::io::Error)
    ensures
        complaint(error) == (true, key@),
{
    std::io::Error::new(std::io::ErrorKind::NotFound, key.to_string())
}

/// The parts of the path that an error says is not supported, if it says so.
pub uninterp spec fn unsupported_parts(error: ResolveError) -> Option<Seq<PathPart<Seq<char>>>>;

/// The error that `path` is not supported (`ResolveError::PathNotSupported`).
#[verifier::external_body]
fn no_link(path: &Path) -> (error: ResolveError)
    ensures
        unsupported_parts(error) == Some(path_parts(path)),
{
    ResolveError::PathNotSupported(path.to_path_buf())
}

/// The text that an owned path was made from.
pub uninterp spec fn path_text(path: PathBuf) -> Seq<char>;

/// The path that `key` spells (`PathBuf::from`).
#[verifier::external_body]
fn make_path(key: String) -> (path: PathBuf)
    ensures
        path_text(path) == key@,
{
    PathBuf::from(key)
}

/// The files of a project as a file system.
#[derive(Clone)]
pub struct VfsFileSystem {
    vfs: Vfs,
}

impl View for VfsFileSystem {
    type V = VfsView;

    closed spec fn view(&self) -> VfsView {
        self.vfs@
    }
}

impl VfsFileSystem {
    /// The file system that holds the files of `vfs`.
    pub fn new(vfs: Vfs) -> (fs: Self)
        ensures
            fs@ == vfs@,
    {
        VfsFileSystem { vfs }
    }
}

impl FileSystem for VfsFileSystem {
    /// A file system that holds no files. The trait asks for this function, and
    /// nothing may call it: no import resolves in what it returns, so a call
    /// is a mistake. The files of a project come in by `VfsFileSystem::new`.
    fn new() -> Self {
        VfsFileSystem { vfs: Vfs::empty() }
    }

    fn read(&self, path: &Path) -> (result: std::io::Result<Vec<u8>>)
        ensures
            match result {
                Ok(bytes) => self@.files.contains_key(path_key(path)) && bytes@
                    == self@.files[path_key(path)],
                Err(error) => !self@.files.contains_key(path_key(path)) && complaint(error)
                    == (true, path_key(path)),
            },
    {
        let key = normalize_key(path);
        match self.vfs.read(&key) {
            Some(bytes) => {
                let mut copy: Vec<u8> = Vec::new();
                copy.extend_from_slice(bytes);
                assert(copy@ =~= bytes@);
                Ok(copy)
            },
            None => Err(not_found(&key)),
        }
    }

    fn read_to_string(&self, path: &Path) -> (result: std::io::Result<String>)
        ensures
            match result {
                Ok(s) => self@.text_of(path_key(path)) == Some(s@),
                Err(error) => self@.text_of(path_key(path)) is None && complaint(error)
                    == (true, path_key(path)),
            },
    {
        let key = normalize_key(path);
        match self.vfs.read_utf8(&key) {
            Some(s) => Ok(s.to_string()),
            None => Err(not_found(&key)),
        }
    }

    fn metadata(&self, path: &Path) -> (result: std::io::Result<FileMetadata>)
        ensures
            match result {
                Ok(metadata) => match entry_at(self@.files, path_key(path)) {
                    Some(EntryKind::File) => metadata_flags(metadata) == (true, false, false),
                    Some(EntryKind::Directory) => metadata_flags(metadata) == (false, true, false),
                    None => false,
                },
                Err(error) => entry_at(self@.files, path_key(path)) is None && complaint(
                    error,
                ) == (true, path_key(path)),
            },
    {
        let key = normalize_key(path);
        match entry_kind(&self.vfs, &key) {
            Some(EntryKind::File) => Ok(make_metadata(true, false, false)),
            Some(EntryKind::Directory) => Ok(make_metadata(false, true, false)),
            None => Err(not_found(&key)),
        }
    }

    fn symlink_metadata(&self, path: &Path) -> (result: std::io::Result<FileMetadata>)
        ensures
            match result {
                Ok(metadata) => match entry_at(self@.files, path_key(path)) {
                    Some(EntryKind::File) => metadata_flags(metadata) == (true, false, false),
                    Some(EntryKind::Directory) => metadata_flags(metadata) == (false, true, false),
                    None => false,
                },
                Err(error) => entry_at(self@.files, path_key(path)) is None && complaint(
                    error,
                ) == (true, path_key(path)),
            },
    {
        self.metadata(path)
    }

    fn read_link(&self, path: &Path) -> (result: Result<PathBuf, ResolveError>)
        ensures
            result matches Err(error) && unsupported_parts(error) == Some(path_parts(path)),
    {
        Err(no_link(path))
    }

    fn canonicalize(&self, path: &Path) -> (result: std::io::Result<PathBuf>)
        ensures
            match result {
                Ok(canonical) => path_text(canonical) == path_key(path),
                Err(_) => false,
            },
    {
        Ok(make_path(normalize_key(path)))
    }
}

/// Going down by a name and up again leads nowhere.
pub proof fn law_parent_undoes_name(parts: Seq<PathPart<Seq<char>>>, name: Seq<char>)
    ensures
        key_of(parts.push(PathPart::Name(name)).push(PathPart::Parent)) == key_of(parts),
{
    let down = parts.push(PathPart::Name(name));
    assert(down.drop_last() =~= parts);
    assert(down.push(PathPart::Parent).drop_last() =~= down);
    assert(walk_parts(down) == walk_parts(parts).push(name));
    assert(walk_parts(parts).push(name).drop_last() =~= walk_parts(parts));
}

/// The parts that lead nowhere make no difference, wherever they stand.
pub proof fn law_ignored_parts_make_no_difference(
    a: Seq<PathPart<Seq<char>>>,
    b: Seq<PathPart<Seq<char>>>,
)
    ensures
        key_of(a.push(PathPart::Ignored) + b) == key_of(a + b),
{
    lemma_ignored(a, b);
}

proof fn lemma_ignored(a: Seq<PathPart<Seq<char>>>, b: Seq<PathPart<Seq<char>>>)
    ensures
        walk_parts(a.push(PathPart::Ignored) + b) == walk_parts(a + b),
    decreases b.len(),
{
    if b.len() == 0 {
        assert(a.push(PathPart::Ignored) + b =~= a.push(PathPart::Ignored));
        assert(a + b =~= a);
        assert(a.push(PathPart::<Seq<char>>::Ignored).drop_last() =~= a);
    } else {
        lemma_ignored(a, b.drop_last());
        assert((a.push(PathPart::Ignored) + b).drop_last() =~= a.push(PathPart::Ignored)
            + b.drop_last());
        assert((a + b).drop_last() =~= a + b.drop_last());
    }
}

proof fn lemma_only_leading_parts_count(parts: Seq<PathPart<Seq<char>>>)
    ensures
        walk_parts(leading(parts)) == walk_parts(parts),
    decreases parts.len(),
{
    if parts.len() > 0 {
        let before = leading(parts.drop_last());
        lemma_only_leading_parts_count(parts.drop_last());
        assert(before.push(parts.last()).drop_last() =~= before);
    }
}

/// Whether `name` is one that can stand between the slashes of a key.
pub open spec fn is_segment(name: Seq<char>) -> bool {
    name.len() > 0 && !name.contains('/') && name != "."@ && name != ".."@
}

/// The names that lead from the top of the project to where a path that is
/// written `text` leads.
pub open spec fn text_names(text: Seq<char>) -> Seq<Seq<char>> {
    walk_parts(text_parts(text))
}

proof fn lemma_walked_names_are_parts(parts: Seq<PathPart<Seq<char>>>)
    ensures
        forall|i: int|
            0 <= i < walk_parts(parts).len() ==> parts.contains(
                PathPart::Name(#[trigger] walk_parts(parts)[i]),
            ),
    decreases parts.len(),
{
    if parts.len() > 0 {
        let init = parts.drop_last();
        let before = walk_parts(init);
        lemma_walked_names_are_parts(init);
        assert forall|i: int| 0 <= i < walk_parts(parts).len() implies parts.contains(
            PathPart::Name(#[trigger] walk_parts(parts)[i]),
        ) by {
            let part = PathPart::Name(walk_parts(parts)[i]);
            if i < before.len() {
                assert(walk_parts(parts)[i] == before[i]);
                assert(init.contains(part));
                assert(parts[init.index_of(part)] == part);
            } else {
                assert(parts[parts.len() - 1] == part);
            }
        }
    }
}

proof fn lemma_names_are_pieces(pieces: Seq<Seq<char>>, name: Seq<char>)
    requires
        pieces_parts(pieces).contains(PathPart::Name(name)),
    ensures
        pieces.contains(name),
        name.len() > 0,
        name != "."@,
        name != ".."@,
    decreases pieces.len(),
{
    let parts = pieces_parts(pieces);
    let init = pieces.drop_last();
    let before = pieces_parts(init);
    let at = parts.index_of(PathPart::Name(name));
    if at < before.len() {
        assert(before[at] == PathPart::Name(name));
        lemma_names_are_pieces(init, name);
        assert(pieces[init.index_of(name)] == name);
    } else {
        assert(pieces[pieces.len() - 1] == name);
    }
}

proof fn lemma_text_names(text: Seq<char>)
    ensures
        forall|i: int|
            0 <= i < text_names(text).len() ==> is_segment(#[trigger] text_names(text)[i])
                && text::split(text, '/').contains(text_names(text)[i]),
{
    let pieces = text::split(text, '/');
    lemma_walked_names_are_parts(text_parts(text));
    text::law_split_pieces_lack_separator(text, '/');
    assert forall|i: int| 0 <= i < text_names(text).len() implies is_segment(
        #[trigger] text_names(text)[i],
    ) && pieces.contains(text_names(text)[i]) by {
        let name = text_names(text)[i];
        lemma_names_are_pieces(pieces, name);
        assert(pieces[pieces.index_of(name)] == name);
    }
}

proof fn lemma_parts_of_names(names: Seq<Seq<char>>)
    requires
        forall|i: int| 0 <= i < names.len() ==> is_segment(#[trigger] names[i]),
    ensures
        walk_parts(pieces_parts(names)) == names,
    decreases names.len(),
{
    if names.len() > 0 {
        let init = names.drop_last();
        assert forall|i: int| 0 <= i < init.len() implies is_segment(#[trigger] init[i]) by {
            assert(init[i] == names[i]);
        }
        lemma_parts_of_names(init);
        assert(is_segment(names[names.len() - 1]));
        let before = pieces_parts(init);
        assert(before.push(PathPart::Name(names.last())).drop_last() =~= before);
        assert(init.push(names.last()) =~= names);
    } else {
        assert(names =~= Seq::empty());
    }
}

proof fn lemma_split_of_key(text: Seq<char>)
    ensures
        text_names(text).len() == 0 ==> text_key(text).len() == 0,
        text_names(text).len() > 0 ==> text::split(text_key(text), '/') == text_names(text),
{
    let names = text_names(text);
    reveal_strlit("/");
    assert("/"@ =~= seq!['/']);
    lemma_text_names(text);
    if names.len() > 0 {
        assert forall|i: int| 0 <= i < names.len() implies !(#[trigger] names[i]).contains('/') by {
            assert(is_segment(names[i]));
        }
        text::law_split_undoes_join(names, '/');
    }
}

/// A key is empty, or it is names with one slash between each two: no name is
/// empty, a dot or two dots, so no slash stands at its start or its end.
pub proof fn law_keys_are_names_between_slashes(text: Seq<char>)
    ensures
        text_key(text).len() == 0 || forall|i: int|
            0 <= i < text::split(text_key(text), '/').len() ==> is_segment(
                #[trigger] text::split(text_key(text), '/')[i],
            ),
{
    lemma_split_of_key(text);
    lemma_text_names(text);
}

proof fn lemma_empty_pieces()
    ensures
        text_parts(Seq::empty()) == Seq::<PathPart<Seq<char>>>::empty(),
        text_parts("."@) == Seq::<PathPart<Seq<char>>>::empty(),
        text_parts(".."@) == seq![PathPart::<Seq<char>>::Parent],
{
    reveal_strlit(".");
    reveal_strlit("..");
    reveal_with_fuel(pieces_parts, 2);
    let none = Seq::<char>::empty();
    assert(text::split(none, '/') =~= seq![none]);
    text::law_split_undoes_join(seq!["."@], '/');
    text::law_split_undoes_join(seq![".."@], '/');
    assert(seq![none].drop_last() =~= Seq::<Seq<char>>::empty());
    assert(seq!["."@].drop_last() =~= Seq::<Seq<char>>::empty());
    assert(seq![".."@].drop_last() =~= Seq::<Seq<char>>::empty());
    assert(".."@.len() != "."@.len());
    assert(text_parts(".."@) =~= seq![PathPart::<Seq<char>>::Parent]);
}

/// A key leads to itself: making a key of the path that is written as a key
/// changes nothing. A key is cut alike on every system if the path that it
/// was made of is.
pub proof fn law_keys_are_normal(text: Seq<char>)
    ensures
        text_key(text_key(text)) == text_key(text),
        text::is_portable_path(text) ==> text::is_portable_path(text_key(text)),
{
    let names = text_names(text);
    let key = text_key(text);
    reveal_strlit("/");
    assert("/"@ =~= seq!['/']);
    lemma_split_of_key(text);
    lemma_text_names(text);
    if names.len() == 0 {
        assert(key =~= Seq::empty());
        lemma_empty_pieces();
    } else {
        lemma_parts_of_names(names);
    }
    if text::is_portable_path(text) {
        lemma_key_lacks(text, '\\');
        assert forall|i: int| 0 <= i < text::split(key, '/').len() implies !text::names_drive(
            #[trigger] text::split(key, '/')[i],
        ) by {
            let pieces = text::split(text, '/');
            if names.len() > 0 {
                assert(pieces.contains(names[i]));
                assert(pieces[pieces.index_of(names[i])] == names[i]);
            }
        }
        reveal_strlit("//");
        if "//"@.is_prefix_of(key) {
            assert(key.subrange(0, 2)[0] == "//"@[0]);
            let rest = key.subrange(1, key.len() as int);
            assert(key =~= Seq::empty().push('/') + rest);
            text::law_split_at_separator(Seq::empty(), rest, '/');
            assert(names[0] =~= Seq::empty());
            assert(is_segment(names[0]));
        }
    }
}

proof fn lemma_key_lacks(text: Seq<char>, c: char)
    requires
        !text.contains(c),
        c != '/',
    ensures
        !text_key(text).contains(c),
{
    let names = text_names(text);
    reveal_strlit("/");
    lemma_text_names(text);
    text::lemma_split_pieces_lack(text, '/', c);
    assert forall|i: int| 0 <= i < names.len() implies !(#[trigger] names[i]).contains(c) by {
        let pieces = text::split(text, '/');
        assert(pieces.contains(names[i]));
        assert(pieces[pieces.index_of(names[i])] == names[i]);
    }
    text::lemma_join_lacks(names, "/"@, c);
}

proof fn lemma_pieces_parts_concat(a: Seq<Seq<char>>, b: Seq<Seq<char>>)
    ensures
        pieces_parts(a + b) == pieces_parts(a) + pieces_parts(b),
    decreases b.len(),
{
    if b.len() == 0 {
        assert(a + b =~= a);
        assert(pieces_parts(a) + pieces_parts(b) =~= pieces_parts(a));
    } else {
        lemma_pieces_parts_concat(a, b.drop_last());
        assert((a + b).drop_last() =~= a + b.drop_last());
        assert(pieces_parts(a + b) =~= pieces_parts(a) + pieces_parts(b));
    }
}

/// What stands on the two sides of a slash leads on its own, the one after the
/// other.
pub proof fn law_a_slash_parts_a_path(a: Seq<char>, b: Seq<char>)
    ensures
        text_parts(a + "/"@ + b) == text_parts(a) + text_parts(b),
{
    reveal_strlit("/");
    assert(a + "/"@ + b =~= a.push('/') + b);
    text::law_split_at_separator(a, b, '/');
    lemma_pieces_parts_concat(text::split(a, '/'), text::split(b, '/'));
}

proof fn lemma_walk_goes_on(
    a: Seq<PathPart<Seq<char>>>,
    b: Seq<PathPart<Seq<char>>>,
    rest: Seq<PathPart<Seq<char>>>,
)
    requires
        walk_parts(a) == walk_parts(b),
    ensures
        walk_parts(a + rest) == walk_parts(b + rest),
    decreases rest.len(),
{
    if rest.len() == 0 {
        assert(a + rest =~= a);
        assert(b + rest =~= b);
    } else {
        lemma_walk_goes_on(a, b, rest.drop_last());
        assert((a + rest).drop_last() =~= a + rest.drop_last());
        assert((b + rest).drop_last() =~= b + rest.drop_last());
    }
}

/// Only where the start of a path leads counts for where the path leads.
pub proof fn law_a_path_goes_on_from_where_its_start_leads(
    a: Seq<char>,
    b: Seq<char>,
    rest: Seq<char>,
)
    requires
        text_names(a) == text_names(b),
    ensures
        text_names(a + "/"@ + rest) == text_names(b + "/"@ + rest),
{
    law_a_slash_parts_a_path(a, rest);
    law_a_slash_parts_a_path(b, rest);
    lemma_walk_goes_on(text_parts(a), text_parts(b), text_parts(rest));
}

/// A slash at the start or the end of a path, a slash too many, and a single
/// dot make no difference to the key.
pub proof fn law_slashes_and_dots_make_no_difference(a: Seq<char>, b: Seq<char>)
    ensures
        text_key("/"@ + a) == text_key(a),
        text_key("./"@ + a) == text_key(a),
        text_key(a + "/"@) == text_key(a),
        text_key(a + "/."@) == text_key(a),
        text_key(a + "//"@ + b) == text_key(a + "/"@ + b),
        text_key(a + "/./"@ + b) == text_key(a + "/"@ + b),
{
    let none = Seq::<char>::empty();
    let parts = text_parts(a);
    reveal_strlit("/");
    reveal_strlit(".");
    reveal_strlit("./");
    reveal_strlit("/.");
    reveal_strlit("//");
    reveal_strlit("/./");
    lemma_empty_pieces();
    law_a_slash_parts_a_path(none, a);
    law_a_slash_parts_a_path("."@, a);
    law_a_slash_parts_a_path(a, none);
    law_a_slash_parts_a_path(a, "."@);
    assert("/"@ + a =~= none + "/"@ + a);
    assert("./"@ + a =~= "."@ + "/"@ + a);
    assert(a + "/"@ =~= a + "/"@ + none);
    assert(a + "/."@ =~= a + "/"@ + "."@);
    assert(Seq::<PathPart<Seq<char>>>::empty() + parts =~= parts);
    assert(parts + Seq::<PathPart<Seq<char>>>::empty() =~= parts);
    law_a_slash_parts_a_path(a, b);
    law_a_slash_parts_a_path(a + "/"@, b);
    law_a_slash_parts_a_path(a + "/."@, b);
    assert(a + "//"@ + b =~= (a + "/"@) + "/"@ + b);
    assert(a + "/./"@ + b =~= (a + "/."@) + "/"@ + b);
}

/// Two dots take away the name that was kept before them, and nothing if there
/// is none.
pub proof fn law_two_dots_take_a_name_away(text: Seq<char>)
    ensures
        text_names(text + "/.."@) == if text_names(text).len() == 0 {
            Seq::empty()
        } else {
            text_names(text).drop_last()
        },
{
    let parts = text_parts(text);
    reveal_strlit("/");
    reveal_strlit("..");
    reveal_strlit("/..");
    lemma_empty_pieces();
    law_a_slash_parts_a_path(text, ".."@);
    assert(text + "/.."@ =~= text + "/"@ + ".."@);
    assert(parts + seq![PathPart::Parent] =~= parts.push(PathPart::Parent));
    assert(parts.push(PathPart::Parent).drop_last() =~= parts);
}

/// A key that is no file is a directory only where it is followed by a slash
/// in the path of some file: a path that merely begins with the same letters
/// does not count.
pub proof fn law_directories_end_at_a_slash(files: Map<Seq<char>, Seq<u8>>, key: Seq<char>)
    requires
        key.len() > 0,
        key.last() != '/',
        entry_at(files, key) == Some(EntryKind::Directory),
    ensures
        exists|p: Seq<char>| #[trigger]
            files.contains_key(p) && p.len() > key.len() && p.take(key.len() as int) == key
                && p[key.len() as int] == '/',
{
    reveal_strlit("/");
    let p = choose|p: Seq<char>| #[trigger]
        files.contains_key(p) && (text::trim_end_slashes(key) + "/"@).is_prefix_of(p);
    let prefix = key + "/"@;
    assert(p.subrange(0, prefix.len() as int)[key.len() as int] == prefix[key.len() as int]);
    assert(p.take(key.len() as int) =~= key) by {
        assert forall|i: int| 0 <= i < key.len() implies p[i] == key[i] by {
            assert(p.subrange(0, prefix.len() as int)[i] == prefix[i]);
        }
    }
}

/// A name after a path and a slash goes one down.
pub proof fn law_a_name_goes_down(text: Seq<char>, name: Seq<char>)
    requires
        is_segment(name),
    ensures
        text_names(text + "/"@ + name) == text_names(text).push(name),
        text_names(name) == seq![name],
        text_key(name) == name,
{
    let none = Seq::<char>::empty();
    law_a_slash_parts_a_path(text, name);
    text::lemma_split_step(none, name, '/');
    reveal_with_fuel(pieces_parts, 2);
    reveal_with_fuel(walk_parts, 2);
    assert(seq![name].drop_last() =~= Seq::empty());
    let own = seq![PathPart::Name(name)];
    assert(text_parts(name) =~= own);
    let parts = text_parts(text);
    assert(parts + own =~= parts.push(PathPart::Name(name)));
    assert(parts.push(PathPart::Name(name)).drop_last() =~= parts);
    assert(own.drop_last() =~= Seq::empty());
    assert(text_names(name) =~= seq![name]);
    assert(text::join(seq![name], "/"@) == name);
}

/// What stands at a key: a file exactly if one is kept there, and else a
/// directory exactly if it is the top or a file is kept below it.
pub proof fn law_what_stands_at_a_key(files: Map<Seq<char>, Seq<u8>>, key: Seq<char>)
    requires
        key.len() > 0 ==> key[key.len() - 1] != '/',
    ensures
        entry_at(files, key) == Some(EntryKind::File) <==> files.contains_key(key),
        entry_at(files, key) == Some(EntryKind::Directory) <==> !files.contains_key(key) && (
        key.len() == 0 || exists|rest: Seq<char>| #[trigger]
            files.contains_key(key + "/"@ + rest)),
{
    text::law_slashes_at_the_end_are_taken_off(key);
    if key.len() > 0 {
        let prefix = key + "/"@;
        if has_files_below(files, key) {
            let p = choose|p: Seq<char>| #[trigger]
                files.contains_key(p) && (text::trim_end_slashes(key) + "/"@).is_prefix_of(p);
            text::lemma_prefix_and_rest(p, prefix);
            let rest = choose|end: Seq<char>| p == #[trigger] (prefix + end);
            assert(files.contains_key(key + "/"@ + rest));
        }
        if exists|rest: Seq<char>| #[trigger] files.contains_key(key + "/"@ + rest) {
            let rest = choose|rest: Seq<char>| #[trigger] files.contains_key(key + "/"@ + rest);
            text::lemma_prefix_and_rest(key + "/"@ + rest, prefix);
            assert(files.contains_key(prefix + rest));
        }
    }
}

/// The key of a path that every system cuts alike is the key of its text.
pub proof fn law_keys_come_from_the_text(path: &Path, text: Seq<char>)
    requires
        path_spelling(path) == Some(text),
        text::is_portable_path(text),
    ensures
        path_key(path) == text_key(text),
        path_key(path) == text::join(text_names(text), "/"@),
{
}

} // verus!
