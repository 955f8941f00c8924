use oxc_resolver::FileSystem;
use std::path::Path;
use visurx::engine::parse::recorder::parse_program;
use visurx::engine::parse::source_type::resolve_source_type;
use visurx::engine::parse::syntax::Program;
use visurx::engine::references::collect_all;
use visurx::engine::references::collect_references_in_program;
use visurx::engine::references::walk::collect_mentions;
use visurx::engine::references::ReferenceBatch;
use visurx::engine::references::ReferenceIndex;
use visurx::engine::references::ReferenceKind;
use visurx::engine::references::ReferenceTarget;
use visurx::engine::resolve::build_resolver;
use visurx::engine::resolve::classify_resolution;
use visurx::engine::resolve::collect_import_specifiers;
use visurx::engine::resolve::external_classify::classify_external;
use visurx::engine::resolve::external_classify::is_node_builtin;
use visurx::engine::resolve::external_classify::summarize_externals;
use visurx::engine::resolve::external_classify::ExternalCategory;
use visurx::engine::resolve::is_relative_specifier;
use visurx::engine::resolve::reduce_to_package_name;
use visurx::engine::resolve::resolve_all;
use visurx::engine::resolve::resolve_file;
use visurx::engine::resolve::resolve_imports_for_file;
use visurx::engine::resolve::root_aliases;
use visurx::engine::resolve::tsconfig_aliases_to_resolver_alias;
use visurx::engine::resolve::vfs_filesystem::entry_kind;
use visurx::engine::resolve::vfs_filesystem::normalize_key;
use visurx::engine::resolve::vfs_filesystem::normalize_parts;
use visurx::engine::resolve::vfs_filesystem::EntryKind;
use visurx::engine::resolve::vfs_filesystem::PathPart;
use visurx::engine::resolve::vfs_filesystem::VfsFileSystem;
use visurx::engine::resolve::ImportEdge;
use visurx::engine::resolve::ImportTarget;
use visurx::engine::semantic::extract_all;
use visurx::error::FileError;
use visurx::scan::manifest::PackageJsonData;
use visurx::string_map::StringMap;
use visurx::vfs::Vfs;

fn parse(source: &str) -> Program {
    parse_program(source, resolve_source_type("test.ts"))
}

fn edges_of(vfs: &Vfs, aliases: &StringMap<Vec<String>>, path: &str) -> Vec<ImportEdge> {
    let resolver = build_resolver(vfs, aliases);
    let program = parse(vfs.read_utf8(path).unwrap());
    resolve_imports_for_file(&resolver, vfs, path, &program)
}

// ---- a file system over the project ----

#[test]
fn reads_existing_file() {
    let mut vfs = Vfs::empty();
    vfs.insert("src/add.ts", b"export const x = 1;".to_vec());
    let fs = VfsFileSystem::new(vfs);

    let content = fs.read_to_string(Path::new("src/add.ts")).unwrap();
    assert_eq!(content, "export const x = 1;");
}

#[test]
fn missing_file_is_not_found_error() {
    let fs = VfsFileSystem::new(Vfs::empty());
    assert!(fs.read(Path::new("src/missing.ts")).is_err());
}

#[test]
fn directory_prefix_is_recognized_without_explicit_entry() {
    let mut vfs = Vfs::empty();
    vfs.insert("src/database/index.ts", b"export {};".to_vec());
    let fs = VfsFileSystem::new(vfs);

    let meta = fs.metadata(Path::new("src/database")).unwrap();
    assert!(meta.is_dir());
    assert!(!meta.is_file());
}

#[test]
fn similarly_named_directory_does_not_false_match() {
    let mut vfs = Vfs::empty();
    vfs.insert("src/database/index.ts", b"export {};".to_vec());
    let fs = VfsFileSystem::new(vfs);

    assert!(fs.metadata(Path::new("src/db")).is_err());
}

#[test]
fn the_file_system_answers_for_the_normal_form_of_a_path() {
    let mut vfs = Vfs::empty();
    vfs.insert("src/a.ts", b"1;".to_vec());
    vfs.insert("src/raw", vec![0xc3, 0x28]);
    let fs = VfsFileSystem::new(vfs);
    assert_eq!(fs.read(Path::new("/src/./lib/../a.ts")).unwrap(), b"1;".to_vec());
    let meta = fs.symlink_metadata(Path::new("src/a.ts")).unwrap();
    assert!(meta.is_file() && !meta.is_dir() && !meta.is_symlink());
    assert!(fs.read_to_string(Path::new("src/raw")).is_err());
    assert_eq!(
        fs.read(Path::new("b.ts")).unwrap_err().kind(),
        std::io::ErrorKind::NotFound
    );
    assert_eq!(fs.metadata(Path::new("/x/../b.ts")).unwrap_err().to_string(), "b.ts");
    match fs.read_link(Path::new("src/a.ts")) {
        Err(oxc_resolver::ResolveError::PathNotSupported(path)) => {
            assert_eq!(path, Path::new("src/a.ts").to_path_buf())
        }
        other => panic!("expected a refusal, got {other:?}"),
    }
    assert_eq!(
        fs.canonicalize(Path::new("src/../src/a.ts")).unwrap(),
        Path::new("src/a.ts").to_path_buf()
    );
}

#[test]
fn directories_end_at_a_slash() {
    let mut vfs = Vfs::empty();
    vfs.insert("src/a.ts", Vec::new());
    assert_eq!(entry_kind(&vfs, "src/a.ts"), Some(EntryKind::File));
    assert_eq!(entry_kind(&vfs, "src"), Some(EntryKind::Directory));
    assert_eq!(entry_kind(&vfs, "sr"), None);
    assert_eq!(entry_kind(&vfs, "src/a"), None);
}

#[test]
fn parts_that_say_nothing_are_left_out_of_a_key() {
    let name = |s: &str| PathPart::Name(s.to_string());
    assert_eq!(
        normalize_parts(&[PathPart::Ignored, name("a"), PathPart::Ignored, name("b")]),
        "a/b"
    );
    assert_eq!(normalize_parts(&[name("a"), name("b"), PathPart::Parent, name("c")]), "a/c");
    assert_eq!(normalize_parts(&[PathPart::Parent, name("a")]), "a");
    assert_eq!(normalize_parts(&[]), "");
    assert_eq!(normalize_key(Path::new("./a//b/")), "a/b");
    let key = normalize_key(Path::new("/x/../y/./z.ts"));
    assert_eq!(key, "y/z.ts");
    assert_eq!(normalize_key(Path::new(&key)), key);
}

#[test]
fn the_text_of_a_path_gives_its_key() {
    let key = |text: &str| normalize_key(Path::new(text));
    assert_eq!(key(""), "");
    assert_eq!(key("/"), "");
    assert_eq!(key("/../a"), "a");
    assert_eq!(key("a/.."), "");
    assert_eq!(key("a/b/../../c"), "c");
    assert_eq!(key("../../a/b"), "a/b");
    assert_eq!(key("a/.../b"), "a/.../b");
    for text in ["a/b.ts", "/a/b.ts", "./a/b.ts", "a//b.ts", "a/./b.ts", "a/b.ts/", "a/b.ts/."] {
        assert_eq!(key(text), "a/b.ts");
    }
    assert_eq!(key("a/c/../b.ts"), key("a/b.ts"));
    assert_eq!(key("/a/ab:c/./d:"), "a/ab:c/d:");
    assert_eq!(key(&key("/a/ab:c/./d:")), "a/ab:c/d:");
}

#[test]
fn a_file_system_made_from_nothing_holds_no_files() {
    let fs = <VfsFileSystem as FileSystem>::new();
    assert!(fs.read(Path::new("a.ts")).is_err());
    assert!(fs.metadata(Path::new("/")).unwrap().is_dir());
}

#[test]
fn imports_are_resolved_from_the_directory_as_it_is_written() {
    let vfs = Vfs::empty();
    let resolver = build_resolver(&vfs, &StringMap::new());
    let program = parse("import './missing';");
    let directory = |path: &str| -> String {
        let edges = resolve_imports_for_file(&resolver, &vfs, path, &program);
        match &edges[0].target {
            ImportTarget::UnresolvedLocal(reason) => {
                reason.split('\'').nth(1).unwrap().to_string()
            }
            other => panic!("expected UnresolvedLocal, got {other:?}"),
        }
    };
    assert_eq!(directory("src/a.ts"), "src");
    assert_eq!(directory("a.ts"), "");
    assert_eq!(directory(""), "");
    assert_eq!(directory("./src/a.ts"), "./src");
    assert_eq!(directory("./a.ts"), ".");
    assert_eq!(directory("a//b.ts"), "a");
    assert_eq!(directory("a//b/c.ts"), "a//b");
    assert_eq!(directory("a/./b.ts"), "a");
    assert_eq!(directory("a/b.ts/."), "a");
    assert_eq!(directory("a/b.ts//"), "a");
    assert_eq!(directory("a/../b.ts"), "a/..");
    assert_eq!(directory("a/ab:c/b.ts"), "a/ab:c");
    assert_eq!(directory("/a.ts"), "/");
    assert_eq!(directory("/./a.ts"), "/");
    assert_eq!(directory("/"), "");
    assert_eq!(directory("."), "");
}

// ---- imports ----

#[test]
fn resolves_local_import_to_real_file() {
    let mut vfs = Vfs::empty();
    vfs.insert("src/app.ts", b"import { helper } from './helper';".to_vec());
    vfs.insert("src/helper.ts", b"export function helper() {}".to_vec());

    let edges = edges_of(&vfs, &StringMap::new(), "src/app.ts");

    assert_eq!(edges.len(), 1);
    assert!(!edges[0].is_re_export);
    match &edges[0].target {
        ImportTarget::LocalFile(path) => assert_eq!(path, "src/helper.ts"),
        other => panic!("expected LocalFile, got {other:?}"),
    }
}

#[test]
fn unresolvable_specifier_falls_back_to_external_never_errors() {
    let mut vfs = Vfs::empty();
    vfs.insert("src/app.ts", b"import express from 'express';".to_vec());

    let edges = edges_of(&vfs, &StringMap::new(), "src/app.ts");

    assert_eq!(edges.len(), 1);
    match &edges[0].target {
        ImportTarget::External(name) => assert_eq!(name, "express"),
        other => panic!("expected External, got {other:?}"),
    }
}

#[test]
fn scoped_and_deep_import_paths_reduce_to_package_root() {
    assert_eq!(reduce_to_package_name("lodash/get"), "lodash");
    assert_eq!(reduce_to_package_name("@scope/pkg/sub/path"), "@scope/pkg");
    assert_eq!(reduce_to_package_name("react"), "react");
}

#[test]
fn export_from_and_export_star_are_collected_as_re_exports() {
    let mut vfs = Vfs::empty();
    vfs.insert(
        "src/index.ts",
        b"export { helper } from './helper';\nexport * from './other';".to_vec(),
    );
    vfs.insert("src/helper.ts", b"export function helper() {}".to_vec());
    vfs.insert("src/other.ts", b"export const x = 1;".to_vec());

    let edges = edges_of(&vfs, &StringMap::new(), "src/index.ts");

    assert_eq!(edges.len(), 2);
    assert!(edges.iter().all(|e| e.is_re_export));
}

#[test]
fn same_file_export_named_declaration_is_not_collected_as_an_import() {
    let mut vfs = Vfs::empty();
    vfs.insert("src/index.ts", b"function helper() {}\nexport { helper };".to_vec());

    let edges = edges_of(&vfs, &StringMap::new(), "src/index.ts");

    assert_eq!(edges.len(), 0);
}

#[test]
fn tsconfig_alias_resolves_to_real_file() {
    let mut vfs = Vfs::empty();
    vfs.insert("src/app.ts", b"import { helper } from '@/helper';".to_vec());
    vfs.insert("src/helper.ts", b"export function helper() {}".to_vec());

    let mut aliases = StringMap::new();
    aliases.insert("@/*".to_string(), vec!["src/*".to_string()]);

    let edges = edges_of(&vfs, &aliases, "src/app.ts");

    assert_eq!(edges.len(), 1);
    match &edges[0].target {
        ImportTarget::LocalFile(path) => assert_eq!(path, "src/helper.ts"),
        other => panic!("expected LocalFile via alias, got {other:?}"),
    }
}

#[test]
fn bare_wildcard_alias_pattern_is_skipped_not_guessed() {
    let mut aliases = StringMap::new();
    aliases.insert("*".to_string(), vec!["./src/types/*".to_string()]);
    let alias = tsconfig_aliases_to_resolver_alias(&aliases);
    assert!(alias.is_empty(), "bare '*' pattern has no well-defined alias meaning and should be skipped");
}

#[test]
fn mixed_valid_and_bare_wildcard_aliases_keeps_only_the_valid_one() {
    let mut aliases = StringMap::new();
    aliases.insert("*".to_string(), vec!["./src/types/*".to_string()]);
    aliases.insert("@/*".to_string(), vec!["src/*".to_string()]);
    let alias = tsconfig_aliases_to_resolver_alias(&aliases);
    assert_eq!(alias.len(), 1);
    assert_eq!(alias[0].0, "@");
}

#[test]
fn bare_wildcard_alias_does_not_cause_resolver_recursion_end_to_end() {
    let mut vfs = Vfs::empty();
    vfs.insert("src/auth/authorization.ts", b"import { helper } from '../helpers/asyncHandler';".to_vec());
    vfs.insert("src/helpers/asyncHandler.ts", b"export function helper() {}".to_vec());

    let mut aliases = StringMap::new();
    aliases.insert("*".to_string(), vec!["./src/types/*".to_string()]);

    let edges = edges_of(&vfs, &aliases, "src/auth/authorization.ts");

    assert_eq!(edges.len(), 1);
    match &edges[0].target {
        ImportTarget::LocalFile(path) => assert_eq!(path, "src/helpers/asyncHandler.ts"),
        other => panic!("expected LocalFile, got {other:?} — bare '*' alias likely leaked through again"),
    }
}

#[test]
fn detects_whole_declaration_type_only_import() {
    let mut vfs = Vfs::empty();
    vfs.insert("src/app.ts", b"import type { Config } from './config';".to_vec());
    vfs.insert("src/config.ts", b"export interface Config {}".to_vec());

    let edges = edges_of(&vfs, &StringMap::new(), "src/app.ts");

    assert_eq!(edges.len(), 1);
    assert!(edges[0].is_type_only);
}

#[test]
fn regular_value_import_is_not_type_only() {
    let mut vfs = Vfs::empty();
    vfs.insert("src/app.ts", b"import { helper } from './helper';".to_vec());
    vfs.insert("src/helper.ts", b"export function helper() {}".to_vec());

    let edges = edges_of(&vfs, &StringMap::new(), "src/app.ts");

    assert!(!edges[0].is_type_only);
}

#[test]
fn captures_local_binding_names_across_all_specifier_kinds() {
    let mut vfs = Vfs::empty();
    vfs.insert(
        "src/app.ts",
        b"import def, { named as renamed, plain } from './mixed';\nimport * as ns from './mixed';"
            .to_vec(),
    );
    vfs.insert("src/mixed.ts", b"export const x = 1;".to_vec());

    let edges = edges_of(&vfs, &StringMap::new(), "src/app.ts");

    assert_eq!(edges.len(), 2);

    let local_names: Vec<&str> = edges[0].local_bindings.iter().map(|b| b.local_name.as_str()).collect();
    assert_eq!(local_names, vec!["def", "renamed", "plain"]);

    let renamed_binding = &edges[0].local_bindings[1];
    assert_eq!(renamed_binding.local_name, "renamed");
    assert_eq!(renamed_binding.imported_name.as_deref(), Some("named"));

    let plain_binding = &edges[0].local_bindings[2];
    assert_eq!(plain_binding.imported_name.as_deref(), Some("plain"));

    assert_eq!(edges[0].local_bindings[0].imported_name, None);

    assert_eq!(edges[1].local_bindings.len(), 1);
    assert_eq!(edges[1].local_bindings[0].local_name, "ns");
    assert_eq!(edges[1].local_bindings[0].imported_name, None);
}

#[test]
fn re_export_has_no_local_bindings() {
    let mut vfs = Vfs::empty();
    vfs.insert("src/index.ts", b"export { helper } from './helper';".to_vec());
    vfs.insert("src/helper.ts", b"export function helper() {}".to_vec());

    let edges = edges_of(&vfs, &StringMap::new(), "src/index.ts");

    assert_eq!(edges.len(), 1);
    assert!(edges[0].local_bindings.is_empty());
}

#[test]
fn resolves_bare_import_to_a_declaration_file() {
    let mut vfs = Vfs::empty();
    vfs.insert(
        "src/helpers/permission.ts",
        b"import { ProtectedRequest } from '../types/app-request';".to_vec(),
    );
    vfs.insert("src/types/app-request.d.ts", b"export interface ProtectedRequest {}".to_vec());

    let edges = edges_of(&vfs, &StringMap::new(), "src/helpers/permission.ts");

    assert_eq!(edges.len(), 1);
    match &edges[0].target {
        ImportTarget::LocalFile(path) => assert_eq!(path, "src/types/app-request.d.ts"),
        other => panic!("expected LocalFile resolving to the .d.ts file, got {other:?}"),
    }
}

#[test]
fn a_relative_specifier_that_leads_nowhere_stays_local() {
    let mut vfs = Vfs::empty();
    vfs.insert("src/app.ts", b"import './gone';\nimport 'pkg/deep';".to_vec());
    let edges = edges_of(&vfs, &StringMap::new(), "src/app.ts");
    assert_eq!(edges.len(), 2);
    assert!(matches!(&edges[0].target, ImportTarget::UnresolvedLocal(_)));
    assert!(matches!(&edges[1].target, ImportTarget::External(name) if name == "pkg"));
    assert_eq!(edges[0].from_file, "src/app.ts");
    assert_eq!(edges[0].specifier, "./gone");
}

#[test]
fn what_the_resolver_found_decides_the_target() {
    let mut vfs = Vfs::empty();
    vfs.insert("src/a.ts", Vec::new());
    let parts = |names: &[&str]| -> Vec<PathPart<String>> {
        names.iter().map(|n| PathPart::Name(n.to_string())).collect()
    };
    let local = classify_resolution(&vfs, "src", "./a", Ok(parts(&["src", "a.ts"])));
    assert!(matches!(&local, ImportTarget::LocalFile(path) if path == "src/a.ts"));
    let outside = classify_resolution(&vfs, "src", "@s/p/x", Ok(parts(&["lib", "x.ts"])));
    assert!(matches!(&outside, ImportTarget::External(name) if name == "@s/p"));
    let lost = classify_resolution(&vfs, "src", "../b", Err("no such file".to_string()));
    assert!(matches!(&lost, ImportTarget::UnresolvedLocal(_)));
}

#[test]
fn only_dots_and_a_slash_make_a_specifier_relative() {
    assert!(is_relative_specifier("./a"));
    assert!(is_relative_specifier("../a"));
    assert!(!is_relative_specifier(".a"));
    assert!(!is_relative_specifier("a/./b"));
    assert!(!is_relative_specifier("/a"));
}

#[test]
fn a_package_is_its_own_package_and_that_of_its_modules() {
    for name in ["react", "@scope/pkg", "@scope"] {
        assert_eq!(reduce_to_package_name(name), name);
    }
    assert_eq!(reduce_to_package_name("@scope/pkg/a"), reduce_to_package_name("@scope/pkg/b"));
    assert_eq!(reduce_to_package_name(""), "");
}

#[test]
fn targets_of_aliases_lie_below_the_root() {
    let aliases = vec![("@".to_string(), vec!["src".to_string(), "/lib".to_string()])];
    let rooted = root_aliases(&aliases);
    assert_eq!(rooted[0].0, "@");
    assert_eq!(rooted[0].1, vec!["/src".to_string(), "/lib".to_string()]);

    let mut vfs = Vfs::empty();
    vfs.insert("pkg/deep/app.ts", b"import '~/x';\nimport '~/gone';\nimport 'types';".to_vec());
    vfs.insert("src/lib/x.ts", Vec::new());
    vfs.insert("src/types/index.d.ts", Vec::new());
    let mut paths = StringMap::new();
    paths.insert("~/*".to_string(), vec!["./none/*".to_string(), "./src/lib/*".to_string()]);
    paths.insert("types".to_string(), vec!["./src/types/index.d.ts".to_string()]);
    let edges = edges_of(&vfs, &paths, "pkg/deep/app.ts");
    assert!(matches!(&edges[0].target, ImportTarget::LocalFile(path) if path == "src/lib/x.ts"));
    assert!(matches!(&edges[1].target, ImportTarget::External(name) if name == "~"));
    assert!(matches!(&edges[2].target, ImportTarget::LocalFile(path) if path == "src/types/index.d.ts"));
}

#[test]
fn the_wildcard_is_stripped_from_both_sides_of_an_alias() {
    let mut aliases = StringMap::new();
    aliases.insert("~lib/*".to_string(), vec!["src/lib/*".to_string(), "vendor".to_string()]);
    let usable = tsconfig_aliases_to_resolver_alias(&aliases);
    assert_eq!(usable.len(), 1);
    assert_eq!(usable[0].0, "~lib");
    assert_eq!(usable[0].1, vec!["src/lib".to_string(), "vendor".to_string()]);
}

#[test]
fn import_specifiers_are_listed_in_the_order_of_their_statements() {
    let program = parse("import a from 'a';\nexport type { T } from 'b';\nimport 'c';\nconst x = 1;");
    let found = collect_import_specifiers(&program);
    let specifiers: Vec<&str> = found.iter().map(|c| c.specifier.as_str()).collect();
    assert_eq!(specifiers, vec!["a", "b", "c"]);
    assert_eq!((found[1].is_re_export, found[1].is_type_only), (true, true));
    assert!(found[2].local_bindings.is_empty());
}

#[test]
fn files_that_cannot_be_read_do_not_stop_the_others() {
    let mut vfs = Vfs::empty();
    vfs.insert("a.ts", b"import './b';".to_vec());
    vfs.insert("b.ts", Vec::new());
    let batch = resolve_all(&vfs, &StringMap::new(), &["gone.ts", "a.ts"]);
    assert_eq!(batch.edges.len(), 1);
    assert!(matches!(&batch.edges[0].target, ImportTarget::LocalFile(path) if path == "b.ts"));
    assert!(matches!(&batch.failures[0], FileError::InvalidUtf8 { path } if path == "gone.ts"));
    let resolver = build_resolver(&vfs, &StringMap::new());
    assert_eq!(resolve_file(&vfs, &resolver, "a.ts").unwrap().len(), 1);
}

// ---- packages ----

fn package_data(deps: &[&str], dev_deps: &[&str]) -> PackageJsonData {
    PackageJsonData {
        scripts: StringMap::new(),
        dependencies: deps.iter().map(|s| s.to_string()).collect(),
        dev_dependencies: dev_deps.iter().map(|s| s.to_string()).collect(),
        main_entry: None,
    }
}

#[test]
fn classifies_node_builtin_with_and_without_prefix() {
    assert_eq!(classify_external("fs", None), ExternalCategory::NodeBuiltin);
    assert_eq!(
        classify_external("node:fs", None),
        ExternalCategory::NodeBuiltin
    );
}

#[test]
fn classifies_declared_dependency_vs_dev_dependency() {
    let data = package_data(&["express"], &["jest"]);
    assert_eq!(
        classify_external("express", Some(&data)),
        ExternalCategory::DeclaredDependency
    );
    assert_eq!(
        classify_external("jest", Some(&data)),
        ExternalCategory::DeclaredDevDependency
    );
}

#[test]
fn classifies_undeclared_when_not_a_builtin_and_not_in_package_json() {
    let data = package_data(&["express"], &[]);
    assert_eq!(
        classify_external("left-pad", Some(&data)),
        ExternalCategory::Undeclared
    );
}

#[test]
fn no_package_data_at_all_still_correctly_identifies_builtins() {
    assert_eq!(
        classify_external("path", None),
        ExternalCategory::NodeBuiltin
    );
    assert_eq!(
        classify_external("some-package", None),
        ExternalCategory::Undeclared
    );
}

#[test]
fn summarize_counts_repeated_imports_of_the_same_name() {
    let data = package_data(&["express"], &[]);
    let names = vec!["express", "express", "fs", "left-pad"];
    let summary = summarize_externals(&names, Some(&data));

    assert_eq!(summary.declared_dependencies.get("express"), Some(&2));
    assert_eq!(summary.node_builtins.get("fs"), Some(&1));
    assert_eq!(summary.undeclared.get("left-pad"), Some(&1));
}

#[test]
fn each_package_is_counted_in_one_place() {
    let data = package_data(&["fs", "a"], &["a", "b"]);
    let summary = summarize_externals(&["a", "b", "fs", "a"], Some(&data));
    assert_eq!(summary.node_builtins.get("fs"), Some(&1));
    assert_eq!(summary.declared_dependencies.get("a"), Some(&2));
    assert_eq!(summary.declared_dependencies.get("fs"), None);
    assert_eq!(summary.declared_dev_dependencies.get("a"), None);
    assert_eq!(summary.declared_dev_dependencies.get("b"), Some(&1));
    assert!(summary.undeclared.is_empty());
    assert!(!is_node_builtin("node:left-pad"));
    assert!(!is_node_builtin("fs2"));
}

// ---- references ----

fn analyze(vfs: &Vfs, paths: &[&str]) -> ReferenceBatch {
    let semantic = extract_all(vfs, paths);
    let resolve = resolve_all(vfs, &StringMap::new(), paths);
    collect_all(vfs, &semantic, &resolve, paths)
}

#[test]
fn matches_same_file_call() {
    let mut vfs = Vfs::empty();
    vfs.insert(
        "src/app.ts",
        b"function helper() {}\nfunction main() { helper(); }".to_vec(),
    );

    let batch = analyze(&vfs, &["src/app.ts"]);
    assert_eq!(batch.calls.len(), 1);
    assert_eq!(batch.calls[0].callee_name, "helper");
    assert_eq!(batch.calls[0].from_symbol_id, "src/app.ts::main::function");
    match &batch.calls[0].target {
        ReferenceTarget::SameFile(id) => assert_eq!(id, "src/app.ts::helper::function"),
        other => panic!("expected SameFile, got {other:?}"),
    }
}

#[test]
fn matches_cross_file_call_via_import_including_rename() {
    let mut vfs = Vfs::empty();
    vfs.insert(
        "src/app.ts",
        b"import { helper as h } from './helper';\nfunction main() { h(); }".to_vec(),
    );
    vfs.insert("src/helper.ts", b"export function helper() {}".to_vec());

    let batch = analyze(&vfs, &["src/app.ts", "src/helper.ts"]);
    let call = batch.calls.iter().find(|c| c.callee_name == "h").unwrap();
    match &call.target {
        ReferenceTarget::CrossFile(id) => assert_eq!(id, "src/helper.ts::helper::function"),
        other => panic!("expected CrossFile (renamed import matched via original name), got {other:?}"),
    }
}

#[test]
fn matches_extends_same_file_and_cross_file() {
    let mut vfs = Vfs::empty();
    vfs.insert(
        "src/app.ts",
        b"import { Base } from './base';\nclass Local {}\nclass A extends Local {}\nclass B extends Base {}"
            .to_vec(),
    );
    vfs.insert("src/base.ts", b"export class Base {}".to_vec());

    let batch = analyze(&vfs, &["src/app.ts", "src/base.ts"]);
    assert_eq!(batch.extends.len(), 2);

    let a = batch.extends.iter().find(|e| e.superclass_name == "Local").unwrap();
    assert!(matches!(&a.target, ReferenceTarget::SameFile(id) if id == "src/app.ts::Local::class"));

    let b = batch.extends.iter().find(|e| e.superclass_name == "Base").unwrap();
    assert!(matches!(&b.target, ReferenceTarget::CrossFile(id) if id == "src/base.ts::Base::class"));
}

#[test]
fn method_call_via_this_is_not_matched_intentional_scope() {
    let mut vfs = Vfs::empty();
    vfs.insert(
        "src/app.ts",
        b"class Counter { increment() {} run() { this.increment(); } }".to_vec(),
    );

    let batch = analyze(&vfs, &["src/app.ts"]);
    assert!(batch.calls.is_empty());
}

#[test]
fn undeclared_global_call_is_unmatched_not_a_false_positive() {
    let mut vfs = Vfs::empty();
    vfs.insert("src/app.ts", b"function main() { console.log('hi'); parseInt('1'); }".to_vec());

    let batch = analyze(&vfs, &["src/app.ts"]);
    let call = batch.calls.iter().find(|c| c.callee_name == "parseInt").unwrap();
    assert!(matches!(call.target, ReferenceTarget::Unmatched));
}

#[test]
fn call_at_true_top_level_outside_any_function_is_skipped() {
    let mut vfs = Vfs::empty();
    vfs.insert("src/app.ts", b"function helper() {}\nhelper();".to_vec());

    let batch = analyze(&vfs, &["src/app.ts"]);
    assert!(batch.calls.is_empty());
}

#[test]
fn a_symbol_of_the_file_hides_an_import_of_its_name() {
    let mut vfs = Vfs::empty();
    vfs.insert(
        "a.ts",
        b"import { f } from './b';\nfunction f() {}\nfunction g() { f(); }".to_vec(),
    );
    vfs.insert("b.ts", b"export function f() {}".to_vec());
    let batch = analyze(&vfs, &["a.ts", "b.ts"]);
    assert!(matches!(&batch.calls[0].target, ReferenceTarget::SameFile(id) if id == "a.ts::f::function"));
}

#[test]
fn calls_of_imports_that_are_not_known_symbols_stay_unresolved() {
    let mut vfs = Vfs::empty();
    vfs.insert("a.ts", b"import { get } from 'lodash';\nimport x from './b';\nfunction g() { get(); x(); }".to_vec());
    vfs.insert("b.ts", b"export default function () {}".to_vec());
    let batch = analyze(&vfs, &["a.ts", "b.ts"]);
    assert_eq!(batch.calls.len(), 2);
    assert!(batch.calls.iter().all(|c| matches!(c.target, ReferenceTarget::UnresolvedImport(_))));
}

#[test]
fn variables_are_not_what_a_call_refers_to() {
    let mut vfs = Vfs::empty();
    vfs.insert("a.ts", b"const f = 1;\nfunction g() { f(); }".to_vec());
    let batch = analyze(&vfs, &["a.ts"]);
    assert!(matches!(batch.calls[0].target, ReferenceTarget::Unmatched));
}

#[test]
fn functions_are_called_and_classes_extended_but_not_the_other_way() {
    let mut vfs = Vfs::empty();
    vfs.insert(
        "a.ts",
        b"class C {}\nfunction f() { C(); }\nclass D extends f {}\nimport { g, E } from './b';\nfunction h() { g(); E(); }\nclass F extends E {}".to_vec(),
    );
    vfs.insert("b.ts", b"export function g() {}\nexport class E {}".to_vec());
    let batch = analyze(&vfs, &["a.ts", "b.ts"]);
    let target = |name: &str| {
        let call = batch.calls.iter().find(|c| c.callee_name == name).unwrap();
        format!("{:?}", call.target)
    };
    assert_eq!(target("C"), "Unmatched");
    assert_eq!(target("g"), "CrossFile(\"b.ts::g::function\")");
    assert_eq!(target("E"), "UnresolvedImport(\"b.ts\")");
    let base = |name: &str| {
        let base = batch.extends.iter().find(|e| e.superclass_name == name).unwrap();
        format!("{:?}", base.target)
    };
    assert_eq!(base("f"), "Unmatched");
    assert_eq!(base("E"), "CrossFile(\"b.ts::E::class\")");
}

#[test]
fn calls_in_methods_and_callbacks_count_for_what_encloses_them() {
    let source = "class A { m() { [1].map(() => f()); } get v() { return f(); } }\nfunction f() {}\nf(() => f());";
    let found = collect_mentions("a.ts", &parse(source));
    let callers: Vec<&str> = found.calls.iter().map(|m| m.from_symbol_id.as_str()).collect();
    assert_eq!(callers, vec!["a.ts::A::m::method", "a.ts::A::v (get)::method"]);
}

#[test]
fn calls_in_private_and_computed_methods_count_for_the_function_around_the_class() {
    let mut vfs = Vfs::empty();
    vfs.insert(
        "a.ts",
        b"function f() {}\nfunction g() { class C { #p() { f(); } } }".to_vec(),
    );
    let batch = analyze(&vfs, &["a.ts"]);
    assert_eq!(batch.calls.len(), 1);
    assert_eq!(batch.calls[0].callee_name, "f");
    assert_eq!(batch.calls[0].from_symbol_id, "a.ts::g::function");
    assert!(matches!(&batch.calls[0].target, ReferenceTarget::SameFile(id) if id == "a.ts::f::function"));

    let callers = |source: &str| -> Vec<String> {
        let found = collect_mentions("a.ts", &parse(source));
        found.calls.into_iter().map(|m| m.from_symbol_id).collect()
    };
    assert_eq!(
        callers("function g() { class C { m() { f(); } ['k' + 1]() { f(); } x = f(); } }"),
        vec!["a.ts::C::m::method", "a.ts::g::function", "a.ts::C::class"]
    );
    assert_eq!(
        callers("function g() { return class { m() { f(); } #p() { f(); } }; }"),
        vec!["a.ts::g::function", "a.ts::g::function"]
    );
    assert!(callers("class C { #p() { f(); } ['k']() { f(); } }").is_empty());
}

#[test]
fn calls_in_the_heading_and_the_fields_of_a_class_count_for_the_class() {
    let source = "class C extends mix(f()) { x = f(); #y = f(); static { f(); } constructor() { super(); f(); } set v(w) { f(); } }";
    let found = collect_mentions("a.ts", &parse(source));
    let callers: Vec<&str> = found.calls.iter().map(|m| m.from_symbol_id.as_str()).collect();
    assert_eq!(
        callers,
        vec![
            "a.ts::C::class",
            "a.ts::C::class",
            "a.ts::C::class",
            "a.ts::C::class",
            "a.ts::C::class",
            "a.ts::C::constructor (constructor)::method",
            "a.ts::C::v (set)::method",
        ]
    );
    assert_eq!(found.calls[0].name, "mix");
}

#[test]
fn the_method_that_a_call_stands_in_is_a_symbol_of_the_file() {
    let mut vfs = Vfs::empty();
    vfs.insert("a.ts", b"class C { constructor() { f(); } get v() { return f(); } m() { f(); } }".to_vec());
    let semantic = extract_all(&vfs, &["a.ts"]);
    let batch = analyze(&vfs, &["a.ts"]);
    assert_eq!(batch.calls.len(), 3);
    for call in &batch.calls {
        assert!(semantic.symbols.iter().any(|s| s.id == call.from_symbol_id));
    }
}

#[test]
fn references_are_looked_up_in_the_index() {
    let mut vfs = Vfs::empty();
    vfs.insert("a.ts", b"class B {}\nfunction g() { h(); }\nfunction h() {}".to_vec());
    let semantic = extract_all(&vfs, &["a.ts"]);
    let resolve = resolve_all(&vfs, &StringMap::new(), &["a.ts"]);
    let index = ReferenceIndex::build(&semantic, &resolve);
    assert!(matches!(index.resolve_name(ReferenceKind::Extends, "a.ts", "B"), ReferenceTarget::SameFile(id) if id == "a.ts::B::class"));
    assert!(matches!(index.resolve_name(ReferenceKind::Extends, "b.ts", "B"), ReferenceTarget::Unmatched));
    assert!(matches!(index.resolve_name(ReferenceKind::Call, "a.ts", "B"), ReferenceTarget::Unmatched));
    let program = parse(vfs.read_utf8("a.ts").unwrap());
    let (calls, extends) = collect_references_in_program(&index, "a.ts", &program);
    assert_eq!(calls.len(), 1);
    assert!(extends.is_empty());
}

#[test]
fn a_file_that_cannot_be_read_has_no_references() {
    let batch = analyze(&Vfs::empty(), &["a.ts"]);
    assert!(batch.calls.is_empty() && batch.extends.is_empty());
    assert!(matches!(&batch.failures[0], FileError::InvalidUtf8 { path } if path == "a.ts"));
}
