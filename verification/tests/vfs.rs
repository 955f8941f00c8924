use std::io::Cursor;
use std::io::Write;
use visurx::error::EngineError;
use visurx::vfs::archive_key;
use visurx::vfs::disk_key;
use visurx::vfs::entry_path;
use visurx::vfs::is_excluded_path;
use visurx::vfs::Vfs;
use zip::write::SimpleFileOptions;
use zip::CompressionMethod;
use zip::ZipWriter;

fn archive(entries: &[(&str, &[u8])], method: CompressionMethod) -> Vec<u8> {
    let mut writer = ZipWriter::new(Cursor::new(Vec::new()));
    for (name, contents) in entries {
        let options = SimpleFileOptions::default().compression_method(method);
        writer.start_file(*name, options).unwrap();
        writer.write_all(contents).unwrap();
    }
    writer.finish().unwrap().into_inner()
}

fn sorted(vfs: &Vfs) -> Vec<String> {
    let mut paths: Vec<String> = vfs.paths().into_iter().map(|p| p.to_string()).collect();
    paths.sort();
    paths
}

#[test]
fn excludes_git_and_node_modules_at_any_depth() {
    assert!(is_excluded_path(".git/HEAD"));
    assert!(is_excluded_path("node_modules/react/index.js"));
    assert!(is_excluded_path("packages/api/node_modules/lodash/get.js"));
    assert!(!is_excluded_path("src/node_modules_helper.ts"));
    assert!(!is_excluded_path("src/components/Button.tsx"));
}

#[test]
fn a_directory_named_git_is_excluded_only_as_a_whole_segment() {
    assert!(is_excluded_path("a/.git/b"));
    assert!(!is_excluded_path("a/.github/workflows/ci.yml"));
    assert!(!is_excluded_path(""));
}

#[test]
fn backslashes_in_names_become_slashes() {
    assert_eq!(disk_key("src\\lib\\a.ts"), "src/lib/a.ts");
    assert_eq!(disk_key("src/a.ts"), "src/a.ts");
    assert_eq!(archive_key("top/src\\a.ts"), "src/a.ts");
}

#[test]
fn the_top_directory_of_an_archive_is_left_out_of_its_paths() {
    assert_eq!(archive_key("repo-main/src/a.ts"), "src/a.ts");
    assert_eq!(archive_key("README.md"), "README.md");
    assert_eq!(archive_key("repo-main/"), "");
    assert_eq!(archive_key("/src/a.ts"), "src/a.ts");
}

#[test]
fn only_files_with_a_path_of_their_own_are_kept() {
    assert_eq!(entry_path("repo/src/a.ts", false), Some("src/a.ts".to_string()));
    assert_eq!(entry_path("repo/src/", true), None);
    assert_eq!(entry_path("repo/", false), None);
    assert_eq!(entry_path("repo/node_modules/a.js", false), None);
    assert_eq!(entry_path("node_modules/a.js", false), Some("a.js".to_string()));
}

#[test]
fn an_empty_file_system_holds_nothing() {
    let vfs = Vfs::empty();
    assert!(vfs.is_empty());
    assert_eq!(vfs.len(), 0);
    assert_eq!(vfs.read("a"), None);
    assert_eq!(vfs.get_size("a"), None);
    assert!(!vfs.file_exists("a"));
    assert!(vfs.paths().is_empty());
}

#[test]
fn what_was_inserted_is_read_back() {
    let mut vfs = Vfs::empty();
    vfs.insert("a.ts", b"one".to_vec());
    vfs.insert("b.ts", b"two".to_vec());
    vfs.insert("a.ts", b"three".to_vec());
    assert_eq!(vfs.len(), 2);
    assert_eq!(vfs.read("a.ts"), Some(b"three".as_slice()));
    assert_eq!(vfs.read("b.ts"), Some(b"two".as_slice()));
    assert_eq!(vfs.get_size("a.ts"), Some(5));
    assert_eq!(sorted(&vfs), vec!["a.ts".to_string(), "b.ts".to_string()]);
}

#[test]
fn what_was_removed_is_gone() {
    let mut vfs = Vfs::empty();
    vfs.insert("a.ts", b"one".to_vec());
    vfs.insert("b.ts", b"two".to_vec());
    assert_eq!(vfs.remove("a.ts"), Some(b"one".to_vec()));
    assert_eq!(vfs.remove("a.ts"), None);
    assert!(!vfs.file_exists("a.ts"));
    assert!(vfs.file_exists("b.ts"));
    assert_eq!(vfs.len(), 1);
}

#[test]
fn a_copy_does_not_follow_later_changes() {
    let mut vfs = Vfs::empty();
    vfs.insert("a.ts", b"one".to_vec());
    let copy = vfs.clone();
    vfs.insert("a.ts", b"two".to_vec());
    vfs.insert("b.ts", b"more".to_vec());
    assert_eq!(copy.len(), 1);
    assert_eq!(copy.read("a.ts"), Some(b"one".as_slice()));
    assert_eq!(vfs.read("a.ts"), Some(b"two".as_slice()));
}

#[test]
fn bytes_that_are_no_text_are_not_read_as_text() {
    let mut vfs = Vfs::empty();
    vfs.insert("text", "gr\u{fc}n \u{1f333}".as_bytes().to_vec());
    vfs.insert("bytes", vec![0xff, 0xfe, 0x00]);
    assert_eq!(vfs.read_utf8("text"), Some("gr\u{fc}n \u{1f333}"));
    assert_eq!(vfs.read_utf8("bytes"), None);
    assert_eq!(vfs.read_utf8("missing"), None);
    assert!(vfs.file_exists("bytes"));
}

#[test]
fn an_archive_is_unpacked_without_directories_and_excluded_paths() {
    let bytes = archive(
        &[
            ("repo/", b""),
            ("repo/src/a.ts", b"export const a = 1;"),
            ("repo/src/", b""),
            ("repo/node_modules/x/index.js", b"x"),
            ("repo/.git/HEAD", b"ref"),
            ("repo/win\\c.ts", b"c"),
            ("README.md", b"read me"),
        ],
        CompressionMethod::Deflated,
    );
    let vfs = Vfs::from_zip_bytes(&bytes).unwrap();
    assert_eq!(
        sorted(&vfs),
        vec!["README.md".to_string(), "src/a.ts".to_string(), "win/c.ts".to_string()]
    );
    assert_eq!(vfs.read_utf8("src/a.ts"), Some("export const a = 1;"));
}

#[test]
fn of_two_entries_with_one_path_the_later_counts() {
    let bytes = archive(&[("r/a/b.ts", b"first"), ("r/a\\b.ts", b"second")], CompressionMethod::Stored);
    let vfs = Vfs::from_zip_bytes(&bytes).unwrap();
    assert_eq!(vfs.len(), 1);
    assert_eq!(vfs.read("a/b.ts"), Some(b"second".as_slice()));
}

fn refusal(bytes: &[u8]) -> EngineError {
    match Vfs::from_zip_bytes(bytes) {
        Ok(_) => panic!("expected an error"),
        Err(error) => error,
    }
}

#[test]
fn bytes_that_do_not_start_as_an_archive_are_refused() {
    let message = "Not a valid ZIP file: expected a zip file starting with [50, 4b, 03, 04], got 10 byte(s)";
    let error = refusal(b"plain text");
    assert!(matches!(error, EngineError::InvalidZipHeader { .. }));
    assert_eq!(error.to_string(), message);
    assert!(matches!(refusal(b"PK"), EngineError::InvalidZipHeader { .. }));
    assert!(matches!(refusal(b""), EngineError::InvalidZipHeader { .. }));
}

#[test]
fn an_archive_that_breaks_off_is_corrupted() {
    let error = refusal(&[0x50, 0x4b, 0x03, 0x04, 0, 0]);
    assert!(matches!(error, EngineError::ZipCorrupted { .. }));
    assert!(error.to_string().starts_with("ZIP archive is corrupted or not a valid ZIP: "));
}

#[test]
fn a_damaged_entry_names_its_file() {
    let mut bytes = archive(&[("r/src/a.ts", b"some contents here")], CompressionMethod::Stored);
    let at = bytes.windows(4).position(|w| w == b"some").unwrap();
    bytes[at] = b'S';
    match refusal(&bytes) {
        EngineError::ZipCorrupted { reason } => {
            assert!(reason.starts_with("could not read contents of 'src/a.ts': "))
        }
        other => panic!("expected a corrupted archive, got {other:?}"),
    }
}
