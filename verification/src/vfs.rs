//! The files of a project, held in memory under slash-separated paths.
use crate::error::EngineError;
use crate::error::EngineErrorView;
use crate::string_map;
use crate::string_map::StringMap;
use crate::text;
use std::io::Cursor;
use std::io::Read;
use std::sync::Arc;
use vstd::prelude::*;
use vstd::string::*;
use zip::ZipArchive;

verus! {

/// A reader over a value held in memory (`std::io::Cursor`).
#[verifier::external_type_specification]
#[verifier::external_body]
#[verifier::reject_recursive_types(T)]
pub struct ExCursor<T>(Cursor<T>);

/// An open ZIP archive (`zip::ZipArchive`).
#[verifier::external_type_specification]
#[verifier::external_body]
#[verifier::reject_recursive_types(R)]
pub struct ExZipArchive<R>(ZipArchive<R>);

/// What an archive holds at one index: the name under which the entry is
/// recorded and the bytes that it unpacks to. Where either cannot be had,
/// the words of the error stand in its place.
pub struct ArchiveEntry {
    pub name: Result<Seq<char>, Seq<char>>,
    pub contents: Result<Seq<u8>, Seq<char>>,
}

/// What `ZipArchive::new` makes of `bytes`: the entries in the order of the
/// central directory, or the words of its error.
pub uninterp spec fn zip_entries(bytes: Seq<u8>) -> Result<Seq<ArchiveEntry>, Seq<char>>;

/// The entries that an open archive holds.
pub uninterp spec fn archive_entries(archive: ZipArchive<Cursor<&[u8]>>) -> Seq<ArchiveEntry>;

/// Opens the archive in `bytes` (`ZipArchive::new`).
#[verifier::external_body]
fn open_archive(bytes: &[u8]) -> (opened: Result<ZipArchive<Cursor<&[u8]>>, String>)
    ensures
        match opened {
            Ok(archive) => zip_entries(bytes@) == Ok::<Seq<ArchiveEntry>, Seq<char>>(
                archive_entries(archive),
            ),
            Err(text) => zip_entries(bytes@) == Err::<Seq<ArchiveEntry>, Seq<char>>(text@),
        },
{
    ZipArchive::new(Cursor::new(bytes)).map_err(|e| e.to_string())
}

/// How many entries the archive holds (`ZipArchive::len`).
#[verifier::external_body]
fn entry_count(archive: &ZipArchive<Cursor<&[u8]>>) -> (n: usize)
    ensures
        n == archive_entries(*archive).len(),
{
    archive.len()
}

/// Whether the name of an archive entry is that of a directory.
pub open spec fn names_directory(name: Seq<char>) -> bool {
    name.len() > 0 && (name.last() == '/' || name.last() == '\\')
}

/// The name of the entry at `index`, and whether the entry is a directory
/// (`ZipArchive::by_index`, `ZipFile::name`, `ZipFile::is_dir`). An entry is
/// a directory if its name ends in a slash of either kind. Looking at an
/// entry changes nothing in what the archive holds.
#[verifier::external_body]
fn entry_name(archive: &mut ZipArchive<Cursor<&[u8]>>, index: usize) -> (found: Result<
    (String, bool),
    String,
>)
    requires
        index < archive_entries(*old(archive)).len(),
    ensures
        archive_entries(*final(archive)) == archive_entries(*old(archive)),
        match found {
            Ok((name, is_dir)) => archive_entries(*old(archive))[index as int].name == Ok::<
                Seq<char>,
                Seq<char>,
            >(name@) && is_dir == names_directory(name@),
            Err(text) => archive_entries(*old(archive))[index as int].name == Err::<
                Seq<char>,
                Seq<char>,
            >(text@),
        },
{
    match archive.by_index(index) {
        Ok(entry) => Ok((entry.name().to_string(), entry.is_dir())),
        Err(e) => Err(e.to_string()),
    }
}

/// The bytes that the entry at `index` unpacks to (`ZipArchive::by_index`,
/// then `Read::read_to_end` on the entry). Reading an entry changes nothing
/// in what the archive holds.
#[verifier::external_body]
fn entry_contents(archive: &mut ZipArchive<Cursor<&[u8]>>, index: usize) -> (read: Result<
    Vec<u8>,
    String,
>)
    requires
        index < archive_entries(*old(archive)).len(),
    ensures
        archive_entries(*final(archive)) == archive_entries(*old(archive)),
        match read {
            Ok(bytes) => archive_entries(*old(archive))[index as int].contents == Ok::<
                Seq<u8>,
                Seq<char>,
            >(bytes@),
            Err(text) => archive_entries(*old(archive))[index as int].contents == Err::<
                Seq<u8>,
                Seq<char>,
            >(text@),
        },
{
    let mut bytes = Vec::new();
    match archive.by_index(index) {
        Ok(mut entry) => match entry.read_to_end(&mut bytes) {
            Ok(_) => Ok(bytes),
            Err(e) => Err(e.to_string()),
        },
        Err(e) => Err(e.to_string()),
    }
}

/// The value that `shared` holds: itself where nothing else shares it, else
/// a clone (`Arc::unwrap_or_clone`).
#[verifier::external_body]
fn unshare<T: Clone>(shared: Arc<T>) -> (value: T)
    ensures
        value == *shared || cloned::<T>(*shared, value),
{
    Arc::unwrap_or_clone(shared)
}

/// Another handle on the value that `shared` holds (`Arc::clone`).
#[verifier::external_body]
fn share<T>(shared: &Arc<T>) -> (handle: Arc<T>)
    ensures
        handle == *shared,
{
    Arc::clone(shared)
}

/// Whether `segment` is the name of a directory whose files are left out.
pub open spec fn is_excluded_segment(segment: Seq<char>) -> bool {
    segment == "node_modules"@ || segment == ".git"@
}

/// Whether a file at `path` is left out: one of the directories on the way
/// to it, or the file itself, has an excluded name.
pub open spec fn excluded(path: Seq<char>) -> bool {
    exists|i: int|
        0 <= i < text::split(path, '/').len() && is_excluded_segment(
            #[trigger] text::split(path, '/')[i],
        )
}

/// Whether a file at `path` is left out.
pub fn is_excluded_path(path: &str) -> (r: bool)
    ensures
        r == excluded(path@),
{
    let segments = text::split_on(path, '/');
    for i in 0..segments.len()
        invariant
            text::views(segments@) == text::split(path@, '/'),
            forall|j: int| 0 <= j < i ==> !is_excluded_segment(#[trigger] text::split(path@, '/')[j]),
    {
        assert(text::views(segments@)[i as int] == segments@[i as int]@);
        if text::same(&segments[i], "node_modules") || text::same(&segments[i], ".git") {
            return true;
        }
    }
    false
}

/// The path under which the entry `name` of an archive is kept: without the
/// directory that everything in the archive stands in, and with slashes only.
pub open spec fn archive_path(name: Seq<char>) -> Seq<char> {
    text::replaced(
        match text::after_first(name, '/') {
            Some(rest) => rest,
            None => name,
        },
        '\\',
        '/',
    )
}

/// The path under which the entry `name` of an archive is kept.
pub fn archive_key(name: &str) -> (path: String)
    ensures
        path@ == archive_path(name@),
{
    match text::split_once_after(name, '/') {
        Some(rest) => text::replace(&rest, '\\', '/'),
        None => text::replace(name, '\\', '/'),
    }
}

/// The path under which the entry `name` of an archive is kept, if it is:
/// directories, entries without a path and excluded paths are not.
pub open spec fn kept_path(name: Seq<char>, is_dir: bool) -> Option<Seq<char>> {
    let path = archive_path(name);
    if is_dir || path.len() == 0 || excluded(path) {
        None
    } else {
        Some(path)
    }
}

/// The path under which the entry `name` of an archive is kept, if it is.
pub fn entry_path(name: &str, is_dir: bool) -> (path: Option<String>)
    ensures
        text::opt_view(path) == kept_path(name@, is_dir),
{
    let path = archive_key(name);
    if is_dir || path.as_str().unicode_len() == 0 || is_excluded_path(&path) {
        None
    } else {
        Some(path)
    }
}

/// The path under which a file at `relative` below a directory is kept.
pub fn disk_key(relative: &str) -> (path: String)
    ensures
        path@ == text::replaced(relative@, '\\', '/'),
{
    text::replace(relative, '\\', '/')
}

/// The files of a project: what each path holds, and the order in which the
/// paths are listed.
#[verifier::ext_equal]
pub struct VfsView {
    pub files: Map<Seq<char>, Seq<u8>>,
    pub order: Seq<Seq<char>>,
}

impl VfsView {
    /// No files.
    pub open spec fn empty() -> VfsView {
        VfsView { files: Map::empty(), order: Seq::empty() }
    }

    /// Whether the list of paths holds each file once and nothing else.
    pub open spec fn well_formed(self) -> bool {
        &&& self.order.no_duplicates()
        &&& forall|p: Seq<char>| #[trigger] self.order.contains(p) <==> self.files.contains_key(p)
    }

    /// The files with `path` holding `content`.
    pub open spec fn with(self, path: Seq<char>, content: Seq<u8>) -> VfsView {
        VfsView {
            files: self.files.insert(path, content),
            order: if self.files.contains_key(path) {
                self.order
            } else {
                self.order.push(path)
            },
        }
    }

    /// The files without `path`.
    pub open spec fn without(self, path: Seq<char>) -> VfsView {
        VfsView {
            files: self.files.remove(path),
            order: string_map::keys_without(self.order, path),
        }
    }

    /// The text of the file at `path`, if there is one and it is text.
    pub open spec fn text_of(self, path: Seq<char>) -> Option<Seq<char>> {
        if self.files.contains_key(path) {
            text::decoded(self.files[path])
        } else {
            None
        }
    }
}

/// Why `bytes` that do not start as a ZIP file does are refused.
pub open spec fn header_complaint(len: nat) -> Seq<char> {
    "expected a zip file starting with [50, 4b, 03, 04], got "@ + text::decimal(len)
        + " byte(s)"@
}

/// Whether `bytes` start with the signature of a ZIP file.
pub open spec fn has_zip_signature(bytes: Seq<u8>) -> bool {
    bytes.len() >= 4 && bytes[0] == 0x50 && bytes[1] == 0x4b && bytes[2] == 0x03 && bytes[3]
        == 0x04
}

/// `files` after the entry with number `index` has been unpacked into them.
/// Directories, entries without a path and excluded paths are passed over,
/// and what they hold is not looked at.
pub open spec fn unpack_entry(files: VfsView, entry: ArchiveEntry, index: nat) -> Result<
    VfsView,
    EngineErrorView,
> {
    match entry.name {
        Err(text) => Err(
            EngineErrorView::ZipCorrupted {
                reason: "could not read entry "@ + text::decimal(index) + ": "@ + text,
            },
        ),
        Ok(name) => match kept_path(name, names_directory(name)) {
            None => Ok(files),
            Some(path) => match entry.contents {
                Err(text) => Err(
                    EngineErrorView::ZipCorrupted {
                        reason: "could not read contents of '"@ + path + "': "@ + text,
                    },
                ),
                Ok(content) => Ok(files.with(path, content)),
            },
        },
    }
}

/// The files that `entries` unpack to, one after another; the first entry
/// that cannot be read ends it.
pub open spec fn unpack(entries: Seq<ArchiveEntry>) -> Result<VfsView, EngineErrorView>
    decreases entries.len(),
{
    if entries.len() == 0 {
        Ok(VfsView::empty())
    } else {
        match unpack(entries.drop_last()) {
            Err(error) => Err(error),
            Ok(files) => unpack_entry(files, entries.last(), (entries.len() - 1) as nat),
        }
    }
}

/// The files that the ZIP file `bytes` unpacks to.
pub open spec fn unzipped(bytes: Seq<u8>) -> Result<VfsView, EngineErrorView> {
    if !has_zip_signature(bytes) {
        Err(EngineErrorView::InvalidZipHeader { detail: header_complaint(bytes.len()) })
    } else {
        match zip_entries(bytes) {
            Err(text) => Err(EngineErrorView::ZipCorrupted { reason: text }),
            Ok(entries) => unpack(entries),
        }
    }
}

/// A result by its views.
pub open spec fn result_view(result: Result<Vfs, EngineError>) -> Result<VfsView, EngineErrorView> {
    match result {
        Ok(vfs) => Ok(vfs@),
        Err(error) => Err(error@),
    }
}

/// The files of a project. Copies share what they hold until one changes.
pub struct Vfs {
    files: Arc<StringMap<Vec<u8>>>,
}

/// What a map of files holds.
pub closed spec fn contents(files: StringMap<Vec<u8>>) -> VfsView {
    VfsView { files: files@.map_values(|v: Vec<u8>| v@), order: files.order() }
}

impl View for Vfs {
    type V = VfsView;

    closed spec fn view(&self) -> VfsView {
        contents(*self.files)
    }
}

proof fn lemma_unshared(shared: Arc<StringMap<Vec<u8>>>, files: StringMap<Vec<u8>>)
    requires
        files == *shared || cloned::<StringMap<Vec<u8>>>(*shared, files),
    ensures
        contents(files) == contents(*shared),
{
    assert forall|k: Seq<char>| #[trigger] shared@.contains_key(k) implies shared@[k]@
        == files@[k]@ by {
        assert(files == *shared || files@.contains_key(k));
        assert(files == *shared || cloned::<Vec<u8>>(shared@[k], files@[k]));
        assert(shared@[k]@ =~= files@[k]@);
    }
    assert(contents(files).files =~= contents(*shared).files);
}

impl Clone for Vfs {
    fn clone(&self) -> (copy: Self)
        ensures
            copy@ == self@,
    {
        Vfs { files: share(&self.files) }
    }
}

impl Vfs {
    /// No files.
    pub fn empty() -> (vfs: Self)
        ensures
            vfs@ == VfsView::empty(),
    {
        let files: StringMap<Vec<u8>> = StringMap::new();
        assert(contents(files).files =~= Map::empty());
        Vfs { files: Arc::new(files) }
    }

    /// The files of the ZIP file `bytes`.
    pub fn from_zip_bytes(bytes: &[u8]) -> (result: Result<Self, EngineError>)
        ensures
            result_view(result) == unzipped(bytes@),
    {
        if bytes.len() < 4 || bytes[0] != 0x50 || bytes[1] != 0x4b || bytes[2] != 0x03 || bytes[3]
            != 0x04 {
            let mut detail = String::from_str(
                "expected a zip file starting with [50, 4b, 03, 04], got ",
            );
            text::append_decimal(&mut detail, bytes.len() as u64);
            detail.append(" byte(s)");
            return Err(EngineError::InvalidZipHeader { detail });
        }
        let mut archive = match open_archive(bytes) {
            Ok(archive) => archive,
            Err(reason) => {
                return Err(EngineError::ZipCorrupted { reason });
            },
        };
        let ghost entries = archive_entries(archive);
        let mut files: StringMap<Vec<u8>> = StringMap::new();
        assert(contents(files) =~= VfsView::empty());
        let count: usize = entry_count(&archive);
        for index in 0..count
            invariant
                count == entries.len(),
                archive_entries(archive) == entries,
                has_zip_signature(bytes@),
                zip_entries(bytes@) == Ok::<Seq<ArchiveEntry>, Seq<char>>(entries),
                unpack(entries.take(index as int)) == Ok::<VfsView, EngineErrorView>(
                    contents(files),
                ),
        {
            let ghost before = contents(files);
            let ghost entry = entries[index as int];
            proof {
                assert(entries.take(index + 1).drop_last() =~= entries.take(index as int));
                lemma_unpack_stops(entries, index + 1);
            }
            let (name, is_dir) = match entry_name(&mut archive, index) {
                Ok(found) => found,
                Err(text) => {
                    let mut reason = String::from_str("could not read entry ");
                    text::append_decimal(&mut reason, index as u64);
                    reason.append(": ");
                    reason.append(&text);
                    return Err(EngineError::ZipCorrupted { reason });
                },
            };
            if let Some(path) = entry_path(&name, is_dir) {
                match entry_contents(&mut archive, index) {
                    Ok(content) => {
                        let ghost key = path@;
                        let ghost bytes_of = content@;
                        files.insert(path, content);
                        assert(contents(files) =~= before.with(key, bytes_of));
                    },
                    Err(text) => {
                        let mut reason = String::from_str("could not read contents of '");
                        reason.append(&path);
                        reason.append("': ");
                        reason.append(&text);
                        return Err(EngineError::ZipCorrupted { reason });
                    },
                }
            }
        }
        assert(entries.take(count as int) =~= entries);
        Ok(Vfs { files: Arc::new(files) })
    }

    /// The bytes of the file at `path`.
    pub fn read(&self, path: &str) -> (bytes: Option<&[u8]>)
        ensures
            match bytes {
                Some(b) => self@.files.contains_key(path@) && b@ == self@.files[path@],
                None => !self@.files.contains_key(path@),
            },
    {
        match self.files.get(path) {
            Some(content) => Some(content.as_slice()),
            None => None,
        }
    }

    /// The text of the file at `path`, if there is one and it is text.
    pub fn read_utf8(&self, path: &str) -> (s: Option<&str>)
        ensures
            text::opt_str_view(s) == self@.text_of(path@),
    {
        match self.read(path) {
            Some(bytes) => text::from_utf8(bytes),
            None => None,
        }
    }

    /// Whether there is a file at `path`.
    pub fn file_exists(&self, path: &str) -> (r: bool)
        ensures
            r == self@.files.contains_key(path@),
    {
        self.files.contains_key(path)
    }

    /// The paths of all files. Each stands in the list once.
    pub fn paths(&self) -> (paths: Vec<&str>)
        ensures
            text::str_views(paths@) == self@.order,
            self@.order.no_duplicates(),
            forall|p: Seq<char>| #[trigger]
                self@.order.contains(p) <==> self@.files.contains_key(p),
    {
        let _n: usize = self.files.len();
        self.files.keys()
    }

    /// How many files there are.
    pub fn len(&self) -> (n: usize)
        ensures
            n == self@.files.dom().len(),
            n == self@.order.len(),
    {
        let n: usize = self.files.len();
        assert(self@.files.dom() =~= self.files@.dom());
        n
    }

    /// Whether there are no files.
    pub fn is_empty(&self) -> (r: bool)
        ensures
            r == (self@.files == Map::<Seq<char>, Seq<u8>>::empty()),
            r == (self@.order.len() == 0),
    {
        let r = self.files.is_empty();
        proof {
            if r {
                assert(self@.files =~= Map::<Seq<char>, Seq<u8>>::empty());
            } else if self@.files == Map::<Seq<char>, Seq<u8>>::empty() {
                assert(self@.files.dom() =~= self.files@.dom());
                assert(self.files@ =~= Map::<Seq<char>, Vec<u8>>::empty());
            }
        }
        r
    }

    /// Puts `content` at `path`, in place of what was there.
    pub fn insert(&mut self, path: &str, content: Vec<u8>)
        ensures
            final(self)@ == old(self)@.with(path@, content@),
    {
        let mut shared: Arc<StringMap<Vec<u8>>> = Arc::new(StringMap::new());
        std::mem::swap(&mut shared, &mut self.files);
        let ghost before = shared;
        let mut files = unshare(shared);
        proof {
            lemma_unshared(before, files);
        }
        let ghost held = contents(files);
        let ghost bytes = content@;
        assert(held.files.dom() =~= files@.dom());
        files.insert(path.to_string(), content);
        assert(contents(files) =~= held.with(path@, bytes));
        self.files = Arc::new(files);
    }

    /// Takes the file at `path` away; its bytes come back.
    pub fn remove(&mut self, path: &str) -> (removed: Option<Vec<u8>>)
        ensures
            final(self)@ == old(self)@.without(path@),
            match removed {
                Some(content) => old(self)@.files.contains_key(path@) && content@
                    == old(self)@.files[path@],
                None => !old(self)@.files.contains_key(path@),
            },
    {
        let mut shared: Arc<StringMap<Vec<u8>>> = Arc::new(StringMap::new());
        std::mem::swap(&mut shared, &mut self.files);
        let ghost before = shared;
        let mut files = unshare(shared);
        proof {
            lemma_unshared(before, files);
        }
        let ghost held = contents(files);
        assert(held.files.dom() =~= files@.dom());
        let removed = files.remove(path);
        assert(contents(files) =~= held.without(path@));
        self.files = Arc::new(files);
        removed
    }

    /// How many bytes the file at `path` holds.
    pub fn get_size(&self, path: &str) -> (size: Option<usize>)
        ensures
            match size {
                Some(n) => self@.files.contains_key(path@) && n == self@.files[path@].len(),
                None => !self@.files.contains_key(path@),
            },
    {
        match self.files.get(path) {
            Some(content) => Some(content.len()),
            None => None,
        }
    }
}

/// An error met while unpacking the first entries is that of the whole.
proof fn lemma_unpack_stops(entries: Seq<ArchiveEntry>, upto: int)
    requires
        0 <= upto <= entries.len(),
    ensures
        unpack(entries.take(upto)) is Err ==> unpack(entries) == unpack(entries.take(upto)),
    decreases entries.len() - upto,
{
    if upto == entries.len() {
        assert(entries.take(upto) =~= entries);
    } else {
        lemma_unpack_stops(entries, upto + 1);
        assert(entries.take(upto + 1).drop_last() =~= entries.take(upto));
    }
}

/// Unpacking keeps no file whose path is empty, excluded or written with a
/// backslash.
pub proof fn law_unpacked_paths_are_clean(entries: Seq<ArchiveEntry>, path: Seq<char>)
    requires
        unpack(entries) matches Ok(files) && files.files.contains_key(path),
    ensures
        path.len() > 0,
        !excluded(path),
        !path.contains('\\'),
    decreases entries.len(),
{
    if entries.len() > 0 {
        let before = unpack(entries.drop_last());
        let files = before->Ok_0;
        if files.files.contains_key(path) {
            law_unpacked_paths_are_clean(entries.drop_last(), path);
        } else {
            assert(path == archive_path(entries.last().name->Ok_0));
        }
    }
}

/// A file that was put in place is read back as it was put, and every other
/// file stays what it was.
pub proof fn law_read_after_insert(files: VfsView, path: Seq<char>, content: Seq<u8>)
    ensures
        files.with(path, content).files.contains_key(path),
        files.with(path, content).files[path] == content,
        forall|other: Seq<char>|
            other != path ==> {
                &&& #[trigger] files.with(path, content).files.contains_key(other)
                    == files.files.contains_key(other)
                &&& files.files.contains_key(other) ==> files.with(path, content).files[other]
                    == files.files[other]
            },
{
}

/// A file that was taken away is gone, and every other file stays what it
/// was.
pub proof fn law_gone_after_remove(files: VfsView, path: Seq<char>)
    ensures
        !files.without(path).files.contains_key(path),
        forall|other: Seq<char>|
            other != path ==> {
                &&& #[trigger] files.without(path).files.contains_key(other)
                    == files.files.contains_key(other)
                &&& files.files.contains_key(other) ==> files.without(path).files[other]
                    == files.files[other]
            },
{
}

/// Text put in place as UTF-8 is read back as that text.
pub proof fn law_text_round_trip(files: VfsView, path: Seq<char>, chars: Seq<char>)
    ensures
        files.with(path, vstd::utf8::encode_utf8(chars)).text_of(path) == Some(chars),
{
    vstd::utf8::encode_utf8_valid_utf8(chars);
    vstd::utf8::encode_utf8_decode_utf8(chars);
}

/// A file is left out exactly if a name on its path, from the top of the
/// project to the file itself, is `node_modules` or `.git`: the whole name, and
/// no other.
pub proof fn law_what_is_left_out(path: Seq<char>)
    ensures
        excluded(path) <==> {
            ||| text::split(path, '/').contains("node_modules"@)
            ||| text::split(path, '/').contains(".git"@)
        },
{
    let names = text::split(path, '/');
    if excluded(path) {
        let i = choose|i: int| 0 <= i < names.len() && is_excluded_segment(#[trigger] names[i]);
        assert(names.contains(names[i]));
    }
    if names.contains("node_modules"@) {
        assert(is_excluded_segment(names[names.index_of("node_modules"@)]));
    }
    if names.contains(".git"@) {
        assert(is_excluded_segment(names[names.index_of(".git"@)]));
    }
}

/// What lies below an excluded directory is left out, however deep.
pub proof fn law_what_lies_below_is_left_out(above: Seq<char>, name: Seq<char>, below: Seq<char>)
    requires
        name == "node_modules"@ || name == ".git"@,
    ensures
        excluded(name + "/"@ + below),
        excluded(above + "/"@ + name + "/"@ + below),
{
    reveal_strlit("/");
    reveal_strlit("node_modules");
    reveal_strlit(".git");
    assert(!name.contains('/'));
    let first = name.push('/') + below;
    let second = (above.push('/') + name).push('/') + below;
    assert(name + "/"@ + below =~= first);
    assert(above + "/"@ + name + "/"@ + below =~= second);
    text::lemma_split_step(above, name, '/');
    text::law_split_at_separator(name, below, '/');
    text::law_split_at_separator(above.push('/') + name, below, '/');
    let at = text::split(above, '/').len() as int;
    assert(text::split(first, '/')[0] == name);
    assert(text::split(second, '/')[at] == name);
    law_what_is_left_out(first);
    law_what_is_left_out(second);
}

/// An entry is kept without the directory that everything in the archive stands
/// in, and with slashes for backslashes; one that stands in none keeps its name.
pub proof fn law_entries_lose_their_first_directory(top: Seq<char>, rest: Seq<char>)
    requires
        !top.contains('/'),
    ensures
        archive_path(top.push('/') + rest) == text::replaced(rest, '\\', '/'),
        archive_path(top) == text::replaced(top, '\\', '/'),
        !rest.contains('\\') ==> archive_path(top.push('/') + rest) == rest,
{
    text::law_what_follows_the_first_separator(top, '/', rest);
    if !rest.contains('\\') {
        assert(text::replaced(rest, '\\', '/') =~= rest) by {
            assert forall|i: int| 0 <= i < rest.len() implies rest[i] != '\\' by {
                if rest[i] == '\\' {
                    assert(rest.contains('\\'));
                }
            }
        }
    }
}

/// Whether an entry is to be unpacked: it is no directory, it has a path, and
/// the path is not left out.
pub open spec fn is_wanted(entry: ArchiveEntry) -> bool {
    entry.name matches Ok(name) && {
        &&& !(name.len() > 0 && (name[name.len() - 1] == '/' || name[name.len() - 1] == '\\'))
        &&& archive_path(name).len() > 0
        &&& !excluded(archive_path(name))
    }
}

/// Whether an entry can be unpacked: its name can be read, and what it holds if
/// it is wanted.
pub open spec fn is_readable(entry: ArchiveEntry) -> bool {
    entry.name is Ok && (is_wanted(entry) ==> entry.contents is Ok)
}

/// An archive is unpacked exactly if all of its entries can be.
pub proof fn law_one_bad_entry_spoils_the_archive(entries: Seq<ArchiveEntry>)
    ensures
        unpack(entries) is Ok <==> forall|i: int|
            0 <= i < entries.len() ==> is_readable(#[trigger] entries[i]),
    decreases entries.len(),
{
    if entries.len() > 0 {
        let init = entries.drop_last();
        law_one_bad_entry_spoils_the_archive(init);
        assert(entries.last() == entries[entries.len() - 1]);
        assert forall|i: int| 0 <= i < init.len() implies #[trigger] init[i] == entries[i] by {}
        if unpack(entries) is Ok {
            assert forall|i: int| 0 <= i < entries.len() implies is_readable(
                #[trigger] entries[i],
            ) by {
                if i < init.len() {
                    assert(is_readable(init[i]));
                }
            }
        }
        if forall|i: int| 0 <= i < entries.len() ==> is_readable(#[trigger] entries[i]) {
            assert forall|i: int| 0 <= i < init.len() implies is_readable(#[trigger] init[i]) by {
                assert(is_readable(entries[i]));
            }
            assert(is_readable(entries[entries.len() - 1]));
        }
    }
}

/// Every entry that is wanted becomes a file under its path with what it holds:
/// of several with one path the last.
pub proof fn law_every_wanted_entry_is_unpacked(entries: Seq<ArchiveEntry>, i: int)
    requires
        unpack(entries) is Ok,
        0 <= i < entries.len(),
        is_wanted(entries[i]),
        forall|j: int|
            i < j < entries.len() && is_wanted(#[trigger] entries[j]) ==> archive_path(
                entries[j].name->Ok_0,
            ) != archive_path(entries[i].name->Ok_0),
    ensures
        unpack(entries)->Ok_0.files.contains_key(archive_path(entries[i].name->Ok_0)),
        entries[i].contents == Ok::<Seq<u8>, Seq<char>>(
            unpack(entries)->Ok_0.files[archive_path(entries[i].name->Ok_0)],
        ),
    decreases entries.len(),
{
    let init = entries.drop_last();
    assert(entries.last() == entries[entries.len() - 1]);
    if i < init.len() {
        assert(init[i] == entries[i]);
        assert forall|j: int| i < j < init.len() && is_wanted(#[trigger] init[j]) implies
            archive_path(init[j].name->Ok_0) != archive_path(init[i].name->Ok_0) by {
            assert(init[j] == entries[j]);
        }
        law_every_wanted_entry_is_unpacked(init, i);
    }
}

/// Every file that is unpacked comes from an entry that is wanted, under its
/// path and with what it holds.
pub proof fn law_every_unpacked_file_comes_from_an_entry(
    entries: Seq<ArchiveEntry>,
    path: Seq<char>,
)
    requires
        unpack(entries) matches Ok(files) && files.files.contains_key(path),
    ensures
        exists|i: int|
            0 <= i < entries.len() && is_wanted(#[trigger] entries[i]) && archive_path(
                entries[i].name->Ok_0,
            ) == path && entries[i].contents == Ok::<Seq<u8>, Seq<char>>(
                unpack(entries)->Ok_0.files[path],
            ),
    decreases entries.len(),
{
    if entries.len() > 0 {
        let init = entries.drop_last();
        let last = entries[entries.len() - 1];
        assert(entries.last() == last);
        if is_wanted(last) && archive_path(last.name->Ok_0) == path {
            assert(is_wanted(entries[entries.len() - 1]));
        } else {
            law_every_unpacked_file_comes_from_an_entry(init, path);
            let i = choose|i: int|
                0 <= i < init.len() && is_wanted(#[trigger] init[i]) && archive_path(
                    init[i].name->Ok_0,
                ) == path && init[i].contents == Ok::<Seq<u8>, Seq<char>>(
                    unpack(init)->Ok_0.files[path],
                );
            assert(is_wanted(entries[i]) && entries[i] == init[i]);
        }
    }
}

/// Bytes that do not begin with `PK`, three and four are refused before anything
/// else, with their number; an archive that cannot be opened is refused in the
/// words of the reader.
pub proof fn law_what_is_no_archive_is_refused(bytes: Seq<u8>)
    ensures
        unzipped(bytes) matches Err(EngineErrorView::InvalidZipHeader { .. }) <==> !(bytes.len() >= 4
            && bytes.take(4) == seq![0x50u8, 0x4bu8, 0x03u8, 0x04u8]),
        !(bytes.len() >= 4 && bytes.take(4) == seq![0x50u8, 0x4bu8, 0x03u8, 0x04u8]) ==> unzipped(
            bytes,
        ) == Err::<VfsView, _>(
            EngineErrorView::InvalidZipHeader {
                detail: "expected a zip file starting with [50, 4b, 03, 04], got "@
                    + text::decimal(bytes.len()) + " byte(s)"@,
            },
        ),
        bytes.len() >= 4 && bytes.take(4) == seq![0x50u8, 0x4bu8, 0x03u8, 0x04u8] ==> match
            zip_entries(bytes) {
            Ok(entries) => unzipped(bytes) == unpack(entries),
            Err(words) => unzipped(bytes) == Err::<VfsView, _>(
                EngineErrorView::ZipCorrupted { reason: words },
            ),
        },
{
    if bytes.len() >= 4 {
        assert(has_zip_signature(bytes) <==> bytes.take(4) == seq![0x50u8, 0x4bu8, 0x03u8, 0x04u8])
            by {
            if has_zip_signature(bytes) {
                assert(bytes.take(4) =~= seq![0x50u8, 0x4bu8, 0x03u8, 0x04u8]);
            }
            if bytes.take(4) == seq![0x50u8, 0x4bu8, 0x03u8, 0x04u8] {
                assert(bytes.take(4)[0] == bytes[0]);
                assert(bytes.take(4)[1] == bytes[1]);
                assert(bytes.take(4)[2] == bytes[2]);
                assert(bytes.take(4)[3] == bytes[3]);
            }
        }
    }
    if let Ok(entries) = zip_entries(bytes) {
        lemma_unpacking_finds_no_header(entries);
    }
}

proof fn lemma_unpacking_finds_no_header(entries: Seq<ArchiveEntry>)
    ensures
        !(unpack(entries) matches Err(EngineErrorView::InvalidZipHeader { .. })),
    decreases entries.len(),
{
    if entries.len() > 0 {
        lemma_unpacking_finds_no_header(entries.drop_last());
    }
}

/// The first entry that cannot be read is told: by its number if it has no name,
/// and else by its path.
pub proof fn law_the_bad_entry_is_told(before: Seq<ArchiveEntry>, entry: ArchiveEntry, words: Seq<char>)
    requires
        unpack(before) is Ok,
    ensures
        entry.name == Err::<Seq<char>, _>(words) ==> unpack(before.push(entry)) == Err::<
            VfsView,
            _,
        >(
            EngineErrorView::ZipCorrupted {
                reason: "could not read entry "@ + text::decimal(before.len()) + ": "@ + words,
            },
        ),
        is_wanted(entry) && entry.contents == Err::<Seq<u8>, _>(words) ==> unpack(
            before.push(entry),
        ) == Err::<VfsView, _>(
            EngineErrorView::ZipCorrupted {
                reason: "could not read contents of '"@ + archive_path(entry.name->Ok_0) + "': "@
                    + words,
            },
        ),
        unpack(before.push(entry).push(entry)) is Err <==> unpack(before.push(entry)) is Err,
{
    let one = before.push(entry);
    assert(one.drop_last() =~= before);
    assert(one.push(entry).drop_last() =~= one);
}

/// Every way to change the files keeps the list of paths: each file once and
/// nothing else.
pub proof fn law_changes_keep_the_list(files: VfsView, path: Seq<char>, content: Seq<u8>)
    requires
        files.well_formed(),
    ensures
        VfsView::empty().well_formed(),
        files.with(path, content).well_formed(),
        files.without(path).well_formed(),
        files.with(path, content).order.contains(path),
        !files.without(path).order.contains(path),
{
    let more = files.with(path, content);
    let less = files.without(path);
    assert forall|p: Seq<char>| #[trigger]
        more.order.contains(p) <==> more.files.contains_key(p) by {
        if files.order.contains(p) {
            assert(more.order[files.order.index_of(p)] == p);
        }
        if p == path && !files.files.contains_key(path) {
            assert(more.order[files.order.len() as int] == p);
        }
        if more.order.contains(p) && p != path {
            let at = more.order.index_of(p);
            assert(files.order[at] == p);
        }
        if p == path && files.files.contains_key(path) {
            assert(files.order.contains(p));
        }
    }
    string_map::lemma_keys_without(files.order, path);
    assert forall|p: Seq<char>| #[trigger]
        less.order.contains(p) <==> less.files.contains_key(p) by {
        assert(files.order.contains(p) <==> files.files.contains_key(p));
    }
}

/// A file can be read as text exactly if it is there and is valid UTF-8.
pub proof fn law_what_can_be_read_as_text(files: VfsView, path: Seq<char>)
    ensures
        files.text_of(path) is Some <==> files.files.contains_key(path)
            && vstd::utf8::valid_utf8(files.files[path]),
        files.text_of(path) matches Some(text) ==> vstd::utf8::encode_utf8(text)
            == files.files[path],
{
    if files.files.contains_key(path) && vstd::utf8::valid_utf8(files.files[path]) {
        vstd::utf8::decode_utf8_encode_utf8(files.files[path]);
    }
}

} // verus!
