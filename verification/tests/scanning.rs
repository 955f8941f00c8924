use visurx::scan;
use visurx::scan::docker_yaml::parse_docker_compose;
use visurx::scan::docker_yaml::parse_dockerfile;
use visurx::scan::docker_yaml::parse_pnpm_workspace_packages;
use visurx::scan::docker_yaml::read_compose;
use visurx::scan::docker_yaml::read_workspace_packages;
use visurx::scan::entry_point::resolve_entry_point;
use visurx::scan::file_classify::classify_file;
use visurx::scan::file_classify::is_parseable_extension;
use visurx::scan::file_classify::is_test_file;
use visurx::scan::file_classify::is_vendor_path;
use visurx::scan::json::Json;
use visurx::scan::manifest::find_extended;
use visurx::scan::manifest::join_relative;
use visurx::scan::manifest::merge_tsconfig;
use visurx::scan::manifest::parse_package_json;
use visurx::scan::manifest::parse_package_name;
use visurx::scan::manifest::parse_tsconfig;
use visurx::scan::manifest::parse_tsconfig_fields;
use visurx::scan::manifest::parse_tsconfig_resolved;
use visurx::scan::manifest::read_package_json;
use visurx::scan::normalize_root;
use visurx::scan::scan_with_entry_point;
use visurx::scan::tooling::frameworks_from_dependencies;
use visurx::scan::tooling::is_ci_file;
use visurx::scan::tooling::is_docker_file;
use visurx::scan::tooling::is_root_file;
use visurx::scan::tooling::match_build_tool_config;
use visurx::scan::tooling::match_lockfile;
use visurx::scan::tooling::match_monorepo_tool;
use visurx::scan::yaml::Yaml;
use visurx::vfs::Vfs;

fn project(files: &[(&str, &str)]) -> Vfs {
    let mut vfs = Vfs::empty();
    for (path, source) in files {
        vfs.insert(path, source.as_bytes().to_vec());
    }
    vfs
}

// ---- containers and workspaces ----

#[test]
fn parses_docker_compose_services() {
    let text = "services:\n  web:\n    image: nginx:latest\n  api:\n    build:\n      context: ./api\n";
    let data = parse_docker_compose(text).unwrap();
    assert_eq!(data.services.len(), 2);
    assert_eq!(data.services[0].image.as_deref(), Some("nginx:latest"));
}

#[test]
fn parses_dockerfile_from_and_expose() {
    let text = "FROM node:20-alpine AS build\nWORKDIR /app\nEXPOSE 3000 3001\n";
    let data = parse_dockerfile(text);
    assert_eq!(data.base_image.as_deref(), Some("node:20-alpine"));
    assert_eq!(
        data.exposed_ports,
        vec!["3000".to_string(), "3001".to_string()]
    );
}

#[test]
fn parses_pnpm_workspace_globs() {
    let text = "packages:\n  - 'packages/*'\n  - 'apps/*'\n";
    let globs = parse_pnpm_workspace_packages(text).unwrap();
    assert_eq!(globs, vec!["packages/*".to_string(), "apps/*".to_string()]);
}

#[test]
fn malformed_yaml_yields_none_not_a_panic() {
    assert!(parse_docker_compose("not: [valid, yaml:").is_none());
}

#[test]
fn a_service_is_built_from_a_path_or_from_a_context() {
    let text = "services:\n  a:\n    build: ./a\n  b:\n    build:\n      context: ./b\n  c: {}\n";
    let data = parse_docker_compose(text).unwrap();
    let contexts: Vec<Option<&str>> =
        data.services.iter().map(|s| s.build_context.as_deref()).collect();
    assert_eq!(contexts, vec![Some("./a"), Some("./b"), None]);
    let names: Vec<&str> = data.services.iter().map(|s| s.name.as_str()).collect();
    assert_eq!(names, vec!["a", "b", "c"]);
    assert!(parse_docker_compose("version: '3'").is_none());
}

#[test]
fn documents_that_were_already_read_are_understood() {
    let text = |s: &str| Yaml::Text(s.to_string());
    let document = Yaml::Mapping(vec![
        (
            text("services"),
            Yaml::Mapping(vec![(
                text("db"),
                Yaml::Mapping(vec![(text("image"), text("postgres"))]),
            )]),
        ),
        (text("packages"), Yaml::Sequence(vec![text("a/*"), Yaml::Null])),
    ]);
    let data = read_compose(&document).unwrap();
    assert_eq!(data.services[0].name, "db");
    assert_eq!(data.services[0].image.as_deref(), Some("postgres"));
    assert_eq!(read_workspace_packages(&document), Some(vec!["a/*".to_string()]));
    assert_eq!(read_workspace_packages(&Yaml::Null), None);
}

#[test]
fn the_last_base_image_and_all_ports_are_kept() {
    let data = parse_dockerfile("FROM a\n  FROM b AS c\nEXPOSE 80\nRUN x\nEXPOSE 443/tcp 53\n");
    assert_eq!(data.base_image.as_deref(), Some("b"));
    assert_eq!(data.exposed_ports, vec!["80", "443/tcp", "53"]);
    let empty = parse_dockerfile("");
    assert_eq!(empty.base_image, None);
    assert!(empty.exposed_ports.is_empty());
}

#[test]
fn a_workspace_without_packages_lists_none() {
    assert_eq!(parse_pnpm_workspace_packages("other: 1"), None);
    assert_eq!(parse_pnpm_workspace_packages("packages: []"), Some(Vec::new()));
}

// ---- entry points ----

#[test]
fn manual_override_wins_when_valid() {
    let mut vfs = Vfs::empty();
    vfs.insert("src/main.ts", b"export {}".to_vec());
    vfs.insert("src/app.ts", b"export {}".to_vec());
    assert_eq!(
        resolve_entry_point(&vfs, "", Some("src/app.ts")),
        Some("src/app.ts".to_string())
    );
}

#[test]
fn invalid_manual_override_returns_none_rather_than_silently_falling_back() {
    let mut vfs = Vfs::empty();
    vfs.insert("index.ts", b"export {}".to_vec());
    assert_eq!(
        resolve_entry_point(&vfs, "", Some("src/does-not-exist.ts")),
        None
    );
}

#[test]
fn the_first_candidate_that_exists_is_the_entry_point() {
    let vfs = project(&[("index.ts", ""), ("src/main.ts", ""), ("api/index.ts", "")]);
    assert_eq!(resolve_entry_point(&vfs, "", None), Some("src/main.ts".to_string()));
    assert_eq!(resolve_entry_point(&vfs, "api/", None), Some("api/index.ts".to_string()));
    assert_eq!(resolve_entry_point(&vfs, "web/", None), None);
}

// ---- files ----

#[test]
fn recognizes_parseable_extensions() {
    assert!(is_parseable_extension("src/app.tsx"));
    assert!(is_parseable_extension("src/util.mjs"));
    assert!(!is_parseable_extension("README.md"));
    assert!(!is_parseable_extension("package.json"));
}

#[test]
fn recognizes_test_files_without_false_positives() {
    assert!(is_test_file("src/foo.test.ts"));
    assert!(is_test_file("src/__tests__/foo.ts"));
    assert!(!is_test_file("src/my.test.folder/component.ts"));
}

#[test]
fn recognizes_root_level_and_nested_tests_directory() {
    assert!(is_test_file("tests/setup.ts"));
    assert!(is_test_file("tests/auth/authUtils/mock.ts"));
    assert!(is_test_file("src/tests/helper.ts"));
}

#[test]
fn a_file_is_classified_by_its_path() {
    let entry = classify_file("src/a.spec.ts", 7);
    assert_eq!(entry.path, "src/a.spec.ts");
    assert_eq!(entry.size_bytes, 7);
    assert!(entry.is_test && entry.is_parseable && !entry.is_vendor);
    assert!(is_vendor_path("x/node_modules/y.js"));
    assert!(!is_vendor_path("x/node_modules"));
}

// ---- manifests ----

#[test]
fn parses_package_json_dependencies_and_scripts() {
    let text = r#"{
            "name": "my-app",
            "scripts": { "build": "vite build" },
            "dependencies": { "react": "^18.0.0" },
            "devDependencies": { "vite": "^5.0.0" },
            "main": "dist/index.js"
        }"#;
    let (data, has_workspaces) = parse_package_json(text).unwrap();
    assert_eq!(data.dependencies, vec!["react".to_string()]);
    assert_eq!(data.dev_dependencies, vec!["vite".to_string()]);
    assert_eq!(data.main_entry.as_deref(), Some("dist/index.js"));
    assert!(!has_workspaces);
    assert_eq!(parse_package_name(text).as_deref(), Some("my-app"));
}

#[test]
fn parses_tsconfig_path_aliases() {
    let text = r#"{
            "compilerOptions": {
                "strict": true,
                "target": "ES2022",
                "paths": { "@/*": ["src/*"] }
            }
        }"#;
    let data = parse_tsconfig(text).unwrap();
    assert!(data.strict);
    assert_eq!(data.target.as_deref(), Some("ES2022"));
    assert_eq!(
        data.path_aliases.get("@/*"),
        Some(&vec!["src/*".to_string()])
    );
}

#[test]
fn malformed_json_yields_none_not_a_panic() {
    assert!(parse_package_json("{ not valid json").is_none());
    assert!(parse_tsconfig("also not valid").is_none());
}

#[test]
fn resolves_relative_extends_chain_child_wins_on_conflict() {
    let mut vfs = Vfs::empty();
    vfs.insert(
        "tsconfig.json",
        br#"{ "compilerOptions": { "strict": true, "target": "ES2020", "paths": { "@/*": ["src/*"] } } }"#
            .to_vec(),
    );
    vfs.insert(
        "tsconfig.build.json",
        br#"{ "extends": "./tsconfig.json", "compilerOptions": { "target": "ES2022" } }"#
            .to_vec(),
    );

    let data = parse_tsconfig_resolved(&vfs, "tsconfig.build.json").unwrap();
    assert_eq!(data.target.as_deref(), Some("ES2022"));
    assert!(data.strict);
    assert_eq!(
        data.path_aliases.get("@/*"),
        Some(&vec!["src/*".to_string()])
    );
}

#[test]
fn unresolvable_package_style_extends_falls_back_to_own_fields() {
    let mut vfs = Vfs::empty();
    vfs.insert(
        "tsconfig.json",
        br#"{ "extends": "@tsconfig/node18/tsconfig.json", "compilerOptions": { "strict": true } }"#.to_vec(),
    );

    let data = parse_tsconfig_resolved(&vfs, "tsconfig.json").unwrap();
    assert!(data.strict);
}

#[test]
fn nested_relative_extends_resolves_parent_directory_correctly() {
    let mut vfs = Vfs::empty();
    vfs.insert(
        "tsconfig.base.json",
        br#"{ "compilerOptions": { "strict": true } }"#.to_vec(),
    );
    vfs.insert(
        "packages/app/tsconfig.json",
        br#"{ "extends": "../../tsconfig.base.json" }"#.to_vec(),
    );

    let data = parse_tsconfig_resolved(&vfs, "packages/app/tsconfig.json").unwrap();
    assert!(data.strict);
}

#[test]
fn a_chain_that_never_ends_is_given_up() {
    let vfs = project(&[("tsconfig.json", r#"{ "extends": "./tsconfig.json", "compilerOptions": { "target": "ES5" } }"#)]);
    let data = parse_tsconfig_resolved(&vfs, "tsconfig.json").unwrap();
    assert_eq!(data.target.as_deref(), Some("ES5"));
    assert!(!data.strict);
    assert!(parse_tsconfig_resolved(&vfs, "gone.json").is_none());
}

#[test]
fn relative_paths_are_joined_segment_by_segment() {
    assert_eq!(join_relative("packages/app", "../../base.json"), "base.json");
    assert_eq!(join_relative("", "./a.json"), "a.json");
    assert_eq!(join_relative("a/b", "./c/./d.json"), "a/b/c/d.json");
    assert_eq!(join_relative("a", "b/../c.json"), "a/c.json");
}

#[test]
fn a_package_and_a_tsconfig_are_read_from_parsed_json() {
    let text = |s: &str| Json::Text(s.to_string());
    let document = Json::Object(vec![
        ("workspaces".to_string(), Json::Array(vec![text("packages/*")])),
        ("scripts".to_string(), Json::Object(vec![("test".to_string(), text("jest")), ("n".to_string(), Json::Number)])),
        ("compilerOptions".to_string(), Json::Object(vec![("strict".to_string(), Json::Bool(false))])),
        ("extends".to_string(), text("./base")),
    ]);
    let (data, has_workspaces) = read_package_json(&document);
    assert!(has_workspaces);
    assert_eq!(data.scripts.get("test").map(|s| s.as_str()), Some("jest"));
    assert_eq!(data.scripts.len(), 1);
    assert!(data.dependencies.is_empty());
    let own = parse_tsconfig_fields(&document);
    assert_eq!(own.strict, Some(false));
    assert_eq!(own.target, None);
    let merged = merge_tsconfig(own, parse_tsconfig(r#"{"compilerOptions":{"strict":true,"target":"ES6"}}"#));
    assert!(!merged.strict);
    assert_eq!(merged.target.as_deref(), Some("ES6"));
    assert_eq!(find_extended("packages/app/tsconfig.json", &document), Some("packages/app/base.json".to_string()));
}

// ---- tools ----

#[test]
fn matches_lockfiles_at_root_only() {
    assert!(match_lockfile("yarn.lock", "").is_some());
    assert!(match_lockfile("packages/api/yarn.lock", "").is_none());
    assert!(match_lockfile("yarn.lock", "packages/api/").is_none());
    assert!(match_lockfile("packages/api/yarn.lock", "packages/api/").is_some());
}

#[test]
fn detects_frameworks_from_dependency_names() {
    let deps = vec!["react".to_string(), "next".to_string()];
    assert_eq!(frameworks_from_dependencies(&deps), vec!["Next.js"]);
}

#[test]
fn tools_are_told_by_their_files_at_the_root() {
    assert!(is_root_file("api/a.json", "api/", "a.json"));
    assert!(!is_root_file("api/b/a.json", "api/", "a.json"));
    assert_eq!(match_lockfile("package-lock.json", "").unwrap().package_manager, "npm");
    assert_eq!(match_monorepo_tool("turbo.json", "").unwrap().tool_name, Some("Turborepo"));
    assert!(match_monorepo_tool("src/turbo.json", "").is_none());
    assert_eq!(match_build_tool_config("vite.config.ts", ""), Some("Vite"));
    assert_eq!(match_build_tool_config("src/vite.config.ts", ""), None);
    assert!(is_docker_file("Dockerfile"));
    assert!(is_ci_file(".github/workflows/ci.yml"));
    assert!(!is_ci_file("src/ci.yml"));
}

// ---- the whole project ----

#[test]
fn a_root_ends_in_a_slash() {
    assert_eq!(normalize_root(None), "");
    assert_eq!(normalize_root(Some("api")), "api/");
    assert_eq!(normalize_root(Some("api/")), "api/");
}

fn sample() -> Vfs {
    project(&[
        ("package.json", r#"{"name":"app","dependencies":{"next":"1"},"workspaces":["p/*"]}"#),
        ("yarn.lock", ""),
        ("tsconfig.json", r#"{"compilerOptions":{"strict":true}}"#),
        ("pnpm-workspace.yaml", "packages:\n  - 'p/*'\n"),
        ("Dockerfile", "FROM node\nEXPOSE 80\n"),
        ("docker-compose.yml", "services:\n  db:\n    image: pg\n"),
        (".github/workflows/ci.yml", "on: push"),
        ("src/index.ts", "export {};"),
        ("src/index.test.ts", "x"),
        ("README.md", "hello"),
    ])
}

#[test]
fn a_scan_tells_what_the_project_is() {
    let result = scan::scan(&sample(), None);
    assert_eq!(result.total_files, 10);
    assert_eq!(result.parseable_count, 2);
    assert_eq!(result.skipped_count, 8);
    assert_eq!(result.parseable_files.len() + result.non_parseable_files.len(), 10);
    assert!(result.parseable_files.iter().all(|f| f.is_parseable));
    assert_eq!(result.package_manager.as_deref(), Some("yarn"));
    assert_eq!(result.lockfile_path.as_deref(), Some("yarn.lock"));
    assert!(result.is_monorepo && result.has_package_json && result.has_docker && result.has_ci);
    assert_eq!(result.package_json_path.as_deref(), Some("package.json"));
    assert_eq!(result.npm_package_name.as_deref(), Some("app"));
    assert_eq!(result.entry_point_guess.as_deref(), Some("src/index.ts"));
    assert_eq!(result.detected_tools, vec!["Next.js".to_string(), "TypeScript".to_string()]);
    assert!(result.tsconfig.unwrap().strict);
    assert_eq!(result.tsconfig_path.as_deref(), Some("tsconfig.json"));
    assert_eq!(result.dockerfile.unwrap().base_image.as_deref(), Some("node"));
    assert_eq!(result.docker_compose.unwrap().services[0].name, "db");
    assert_eq!(result.pnpm_workspace_packages, Some(vec!["p/*".to_string()]));
    assert_eq!(result.package_data.unwrap().dependencies, vec!["next".to_string()]);
}

#[test]
fn only_files_below_the_root_are_seen() {
    let vfs = project(&[
        ("package.json", r#"{"name":"top"}"#),
        ("api/package.json", r#"{"name":"api"}"#),
        ("api/src/main.ts", ""),
        ("apis/x.ts", ""),
    ]);
    let result = scan::scan(&vfs, Some("api"));
    assert_eq!(result.total_files, 2);
    assert_eq!(result.npm_package_name.as_deref(), Some("api"));
    assert_eq!(result.package_json_path.as_deref(), Some("api/package.json"));
    assert_eq!(result.entry_point_guess.as_deref(), Some("api/src/main.ts"));
    assert_eq!(scan::scan(&vfs, None).total_files, 4);
}

#[test]
fn the_entry_point_can_be_named() {
    let named = scan_with_entry_point(&sample(), None, Some("README.md"));
    assert_eq!(named.entry_point_guess.as_deref(), Some("README.md"));
    let wrong = scan_with_entry_point(&sample(), None, Some("gone.ts"));
    assert_eq!(wrong.entry_point_guess, None);
}

#[test]
fn an_empty_project_has_nothing() {
    let result = scan::scan(&Vfs::empty(), None);
    assert_eq!(result.total_files, 0);
    assert!(!result.has_package_json && !result.is_monorepo && !result.has_docker);
    assert!(result.package_data.is_none() && result.tsconfig.is_none());
    assert!(result.detected_tools.is_empty());
}
