//! What a path says of a file.
use crate::text;
use vstd::prelude::*;

verus! {

/// A file, and what its path says of it.
#[derive(Debug, Clone)]
pub struct FileEntry {
    pub path: String,
    pub size_bytes: u32,
    pub is_test: bool,
    pub is_parseable: bool,
    pub is_vendor: bool,
}

/// A `FileEntry` by its characters.
pub struct FileEntryView {
    pub path: Seq<char>,
    pub size_bytes: u32,
    pub is_test: bool,
    pub is_parseable: bool,
    pub is_vendor: bool,
}

impl View for FileEntry {
    type V = FileEntryView;

    open spec fn view(&self) -> FileEntryView {
        FileEntryView {
            path: self.path@,
            size_bytes: self.size_bytes,
            is_test: self.is_test,
            is_parseable: self.is_parseable,
            is_vendor: self.is_vendor,
        }
    }
}

/// Entries by their characters.
pub open spec fn entries_view(entries: Seq<FileEntry>) -> Seq<FileEntryView> {
    entries.map_values(|e: FileEntry| e@)
}

/// The extensions of files that can be parsed.
pub open spec fn parseable_extensions() -> Seq<Seq<char>> {
    seq!["js"@, "jsx"@, "ts"@, "tsx"@, "mjs"@, "cjs"@, "mts"@, "cts"@]
}

/// Whether a path ends in the extension of a file that can be parsed. A path
/// without a dot is its own extension.
pub open spec fn is_parseable(path: Seq<char>) -> bool {
    parseable_extensions().contains(text::split(path, '.').last())
}

/// Whether a text is one of `words`.
pub fn is_one_of(s: &str, words: &[&str]) -> (r: bool)
    ensures
        r == text::str_views(words@).contains(s@),
{
    for i in 0..words.len()
        invariant
            forall|k: int| 0 <= k < i ==> (#[trigger] words@[k])@ != s@,
    {
        if text::same(s, words[i]) {
            assert(text::str_views(words@)[i as int] == s@);
            return true;
        }
    }
    proof {
        if text::str_views(words@).contains(s@) {
            let k = text::str_views(words@).index_of(s@);
            assert(words@[k]@ == s@);
        }
    }
    false
}

/// Whether a path ends in the extension of a file that can be parsed.
pub fn is_parseable_extension(path: &str) -> (r: bool)
    ensures
        r == is_parseable(path@),
{
    let pieces = text::split_on(path, '.');
    proof {
        text::lemma_split_nonempty(path@, '.');
        assert(text::views(pieces@).last() == pieces@.last()@);
    }
    let words: Vec<&str> = vec!["js", "jsx", "ts", "tsx", "mjs", "cjs", "mts", "cts"];
    assert(text::str_views(words@) =~= parseable_extensions());
    is_one_of(&pieces[pieces.len() - 1], &words)
}

/// The names of directories that hold tests.
pub open spec fn test_directories() -> Seq<Seq<char>> {
    seq!["test"@, "tests"@, "__tests__"@]
}

/// The endings of the names of test files.
pub open spec fn test_suffixes() -> Seq<Seq<char>> {
    seq![
        ".test.js"@,
        ".test.jsx"@,
        ".test.ts"@,
        ".test.tsx"@,
        ".spec.js"@,
        ".spec.jsx"@,
        ".spec.ts"@,
        ".spec.tsx"@,
    ]
}

/// Whether one of the directories that a path goes through holds tests. The
/// name of the file itself does not count.
pub open spec fn is_in_test_directory(path: Seq<char>) -> bool {
    exists|i: int|
        0 <= i < text::split(path, '/').len() - 1 && test_directories().contains(
            #[trigger] text::split(path, '/')[i],
        )
}

/// Whether a path has the ending of a test file.
pub open spec fn has_test_suffix(path: Seq<char>) -> bool {
    exists|i: int| 0 <= i < test_suffixes().len() && (#[trigger] test_suffixes()[i]).is_suffix_of(path)
}

/// Whether a path is that of a test.
pub open spec fn is_test(path: Seq<char>) -> bool {
    is_in_test_directory(path) || has_test_suffix(path)
}

fn ends_with_test_suffix(path: &str) -> (r: bool)
    ensures
        r == has_test_suffix(path@),
{
    let suffixes: Vec<&str> =
        vec![
        ".test.js",
        ".test.jsx",
        ".test.ts",
        ".test.tsx",
        ".spec.js",
        ".spec.jsx",
        ".spec.ts",
        ".spec.tsx",
    ];
    assert(text::str_views(suffixes@) =~= test_suffixes());
    for i in 0..suffixes.len()
        invariant
            text::str_views(suffixes@) == test_suffixes(),
            forall|k: int| 0 <= k < i ==> !(#[trigger] test_suffixes()[k]).is_suffix_of(path@),
    {
        assert(test_suffixes()[i as int] == suffixes@[i as int]@);
        if text::ends_with(path, suffixes[i]) {
            return true;
        }
    }
    false
}

/// Whether a path is that of a test.
pub fn is_test_file(path: &str) -> (r: bool)
    ensures
        r == is_test(path@),
{
    let segments = text::split_on(path, '/');
    let names: Vec<&str> = vec!["test", "tests", "__tests__"];
    proof {
        text::lemma_split_nonempty(path@, '/');
        assert(text::str_views(names@) =~= test_directories());
    }
    let last: usize = segments.len() - 1;
    for i in 0..last
        invariant
            last + 1 == segments@.len(),
            text::views(segments@) == text::split(path@, '/'),
            text::str_views(names@) == test_directories(),
            forall|k: int|
                0 <= k < i ==> !test_directories().contains(#[trigger] text::split(path@, '/')[k]),
    {
        assert(text::views(segments@)[i as int] == segments@[i as int]@);
        if is_one_of(&segments[i], &names) {
            return true;
        }
    }
    ends_with_test_suffix(path)
}

/// Whether a path leads through a directory of installed packages.
pub open spec fn is_vendor(path: Seq<char>) -> bool {
    text::has_infix(path, "node_modules/"@)
}

/// Whether a path leads through a directory of installed packages.
pub fn is_vendor_path(path: &str) -> (r: bool)
    ensures
        r == is_vendor(path@),
{
    text::contains(path, "node_modules/")
}

/// What a path says of a file of this size.
pub open spec fn classified(path: Seq<char>, size_bytes: u32) -> FileEntryView {
    FileEntryView {
        path,
        size_bytes,
        is_test: is_test(path),
        is_parseable: is_parseable(path),
        is_vendor: is_vendor(path),
    }
}

/// What a path says of a file of this size.
pub fn classify_file(path: &str, size_bytes: u32) -> (entry: FileEntry)
    ensures
        entry@ == classified(path@, size_bytes),
{
    FileEntry {
        path: path.to_string(),
        size_bytes,
        is_test: is_test_file(path),
        is_parseable: is_parseable_extension(path),
        is_vendor: is_vendor_path(path),
    }
}

/// A file can be parsed exactly if what follows the last dot of its path is
/// `js`, `jsx`, `ts`, `tsx`, `mjs`, `cjs`, `mts` or `cts`.
pub proof fn law_extensions_tell_what_can_be_parsed(stem: Seq<char>, extension: Seq<char>)
    requires
        !extension.contains('.'),
    ensures
        is_parseable(stem + "."@ + extension) <==> {
            ||| extension == "js"@
            ||| extension == "jsx"@
            ||| extension == "ts"@
            ||| extension == "tsx"@
            ||| extension == "mjs"@
            ||| extension == "cjs"@
            ||| extension == "mts"@
            ||| extension == "cts"@
        },
        is_parseable(extension) <==> is_parseable(stem + "."@ + extension),
{
    let words = parseable_extensions();
    reveal_strlit(".");
    assert(stem + "."@ + extension =~= stem.push('.') + extension);
    text::lemma_split_step(stem, extension, '.');
    assert(words[0] == "js"@);
    assert(words[1] == "jsx"@);
    assert(words[2] == "ts"@);
    assert(words[3] == "tsx"@);
    assert(words[4] == "mjs"@);
    assert(words[5] == "cjs"@);
    assert(words[6] == "mts"@);
    assert(words[7] == "cts"@);
}

/// A path is that of a test exactly if it goes through a directory `test`,
/// `tests` or `__tests__`, or ends in `.test` or `.spec` and one of the
/// extensions `.js`, `.jsx`, `.ts` and `.tsx`.
pub proof fn law_names_tell_what_is_a_test(path: Seq<char>)
    ensures
        is_test(path) <==> {
            ||| exists|i: int|
                0 <= i < text::split(path, '/').len() - 1 && (#[trigger] text::split(path, '/')[i]
                    == "test"@ || text::split(path, '/')[i] == "tests"@ || text::split(
                    path,
                    '/',
                )[i] == "__tests__"@)
            ||| ".test.js"@.is_suffix_of(path)
            ||| ".test.jsx"@.is_suffix_of(path)
            ||| ".test.ts"@.is_suffix_of(path)
            ||| ".test.tsx"@.is_suffix_of(path)
            ||| ".spec.js"@.is_suffix_of(path)
            ||| ".spec.jsx"@.is_suffix_of(path)
            ||| ".spec.ts"@.is_suffix_of(path)
            ||| ".spec.tsx"@.is_suffix_of(path)
        },
{
    let names = test_directories();
    let suffixes = test_suffixes();
    assert(names[0] == "test"@);
    assert(names[1] == "tests"@);
    assert(names[2] == "__tests__"@);
    assert(suffixes[0] == ".test.js"@);
    assert(suffixes[1] == ".test.jsx"@);
    assert(suffixes[2] == ".test.ts"@);
    assert(suffixes[3] == ".test.tsx"@);
    assert(suffixes[4] == ".spec.js"@);
    assert(suffixes[5] == ".spec.jsx"@);
    assert(suffixes[6] == ".spec.ts"@);
    assert(suffixes[7] == ".spec.tsx"@);
    assert(names.contains(names[0]) && names.contains(names[1]) && names.contains(names[2]));
}

/// What lies below a directory of tests is a test, however deep the directory
/// and the file lie.
pub proof fn law_what_lies_in_a_test_directory_is_a_test(
    above: Seq<char>,
    name: Seq<char>,
    below: Seq<char>,
)
    requires
        name == "test"@ || name == "tests"@ || name == "__tests__"@,
    ensures
        is_test(name + "/"@ + below),
        is_test(above + "/"@ + name + "/"@ + below),
{
    reveal_strlit("/");
    reveal_strlit("test");
    reveal_strlit("tests");
    reveal_strlit("__tests__");
    assert(!name.contains('/'));
    let first = name.push('/') + below;
    let second = (above.push('/') + name).push('/') + below;
    assert(name + "/"@ + below =~= first);
    assert(above + "/"@ + name + "/"@ + below =~= second);
    text::lemma_split_step(above, name, '/');
    text::law_split_at_separator(name, below, '/');
    text::law_split_at_separator(above.push('/') + name, below, '/');
    text::lemma_split_nonempty(below, '/');
    let at = text::split(above, '/').len() as int;
    assert(text::split(first, '/')[0] == name);
    assert(text::split(second, '/')[at] == name);
    law_names_tell_what_is_a_test(first);
    law_names_tell_what_is_a_test(second);
}

/// A path is that of an installed package exactly if `node_modules/` stands
/// in it.
pub proof fn law_installed_packages_are_vendored(path: Seq<char>)
    ensures
        is_vendor(path) <==> exists|a: Seq<char>, b: Seq<char>|
            path == #[trigger] (a + "node_modules/"@ + b),
{
    text::law_infixes_stand_between(path, "node_modules/"@);
}

/// What is said of a file is said of its own path and size.
pub proof fn law_files_are_told_by_their_path(path: Seq<char>, size_bytes: u32)
    ensures
        classified(path, size_bytes).path == path,
        classified(path, size_bytes).size_bytes == size_bytes,
        classified(path, size_bytes).is_test == is_test(path),
        classified(path, size_bytes).is_parseable == is_parseable(path),
        classified(path, size_bytes).is_vendor == is_vendor(path),
{
}

} // verus!
