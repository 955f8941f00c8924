use visurx::engine::cfg::analyze_all;
use visurx::engine::cfg::FunctionCfgReport;
use visurx::engine::parse::parse_all;
use visurx::engine::references::collect_all;
use visurx::engine::resolve::resolve_all;
use visurx::engine::semantic::extract_all;
use visurx::engine::semantic::symbol_classify::SymbolKind;
use visurx::engine::semantic::SemanticBatch;
use visurx::report::alias_use;
use visurx::report::complexities;
use visurx::report::descending;
use visurx::report::exported_count;
use visurx::report::external_names;
use visurx::report::files_with_graph;
use visurx::report::first_lost_imports;
use visurx::report::kind_count;
use visurx::report::parseable_paths;
use visurx::report::summarize_imports;
use visurx::report::summarize_parse;
use visurx::report::summarize_references;
use visurx::report::total_complexity;
use visurx::report::AliasUse;
use visurx::scan;
use visurx::string_map::StringMap;
use visurx::vfs::Vfs;

fn project() -> Vfs {
    let mut vfs = Vfs::empty();
    vfs.insert(
        "a.ts",
        b"import { f } from './b';\nimport './gone';\nimport x from 'pkg/deep';\nexport { f } from './b';\nfunction g() { f(); h(); x(); parseInt(1); }\nfunction h() { if (g) { g(); } }".to_vec(),
    );
    vfs.insert("b.ts", b"export function f() {}\nexport class C {}".to_vec());
    vfs.insert("c.ts", b"const = ;".to_vec());
    vfs.insert("README.md", b"text".to_vec());
    vfs
}

const PATHS: [&str; 4] = ["a.ts", "b.ts", "c.ts", "d.ts"];

#[test]
fn parsing_is_summed_up_by_how_it_went() {
    let vfs = project();
    let scanned = scan::scan(&vfs, None);
    let mut paths = parseable_paths(&scanned);
    paths.sort();
    assert_eq!(paths, vec!["a.ts", "b.ts", "c.ts"]);
    let summary = summarize_parse(&parse_all(&vfs, &PATHS));
    assert_eq!(
        (summary.attempted, summary.clean, summary.with_diagnostics, summary.failed),
        (4, 2, 1, 1)
    );
}

#[test]
fn symbols_are_counted_by_kind() {
    let batch = extract_all(&project(), &["a.ts", "b.ts"]);
    assert_eq!(exported_count(&batch.symbols), 2);
    assert_eq!(kind_count(&batch.symbols, SymbolKind::Function), 3);
    assert_eq!(kind_count(&batch.symbols, SymbolKind::Class), 1);
    assert_eq!(kind_count(&batch.symbols, SymbolKind::Enum), 0);
}

#[test]
fn graphs_are_counted_among_the_attempts() {
    let batch = extract_all(&project(), &PATHS);
    assert_eq!(
        files_with_graph(4, &batch),
        Some(4 - batch.failures.len() - batch.cfg_unavailable.len())
    );
    let mut without = SemanticBatch::new();
    without.cfg_unavailable.push("a.ts".to_string());
    assert_eq!(files_with_graph(1, &without), Some(0));
    assert_eq!(files_with_graph(0, &without), None);
}

#[test]
fn imports_are_counted_by_where_they_lead() {
    let batch = resolve_all(&project(), &StringMap::new(), &PATHS);
    let summary = summarize_imports(&batch.edges);
    assert_eq!(summary.total, 4);
    assert_eq!((summary.local, summary.external, summary.unresolved_local), (2, 1, 1));
    assert_eq!(summary.re_exports, 1);
    assert_eq!(external_names(&batch.edges), vec!["pkg"]);
    assert_eq!(first_lost_imports(&batch.edges, 5), vec![1]);
    assert!(first_lost_imports(&batch.edges, 0).is_empty());
}

#[test]
fn aliases_are_declared_usable_or_neither() {
    assert_eq!(alias_use(0, 0), AliasUse::NoneDeclared);
    assert_eq!(alias_use(2, 0), AliasUse::NoneUsable);
    assert_eq!(alias_use(2, 1), AliasUse::Used);
}

#[test]
fn calls_are_counted_by_what_they_refer_to() {
    let vfs = project();
    let symbols = extract_all(&vfs, &PATHS);
    let imports = resolve_all(&vfs, &StringMap::new(), &PATHS);
    let summary = summarize_references(&collect_all(&vfs, &symbols, &imports, &PATHS));
    assert_eq!(summary.calls, 5);
    assert_eq!((summary.same_file, summary.cross_file), (2, 1));
    assert_eq!((summary.unresolved_import, summary.unmatched), (1, 1));
    assert_eq!((summary.extends, summary.failed), (0, 1));
}

fn report(complexity: u32) -> FunctionCfgReport {
    FunctionCfgReport {
        symbol_id: "id".to_string(),
        name: "n".to_string(),
        cyclomatic_complexity: complexity,
        blocks: Vec::new(),
    }
}

#[test]
fn complexities_are_summed_and_ordered() {
    let vfs = project();
    let symbols = extract_all(&vfs, &PATHS).symbols;
    let batch = analyze_all(&vfs, &symbols, &["a.ts", "b.ts"]);
    assert_eq!(total_complexity(&batch.reports), Some(4));
    let reports = vec![report(2), report(u32::MAX), report(2), report(1)];
    assert_eq!(total_complexity(&reports), Some(4294967300));
    assert_eq!(descending(&complexities(&reports)), vec![1, 0, 2, 3]);
    assert_eq!(total_complexity(&[]), Some(0));
}

#[test]
fn the_largest_come_first_and_equals_stay_in_order() {
    assert_eq!(descending(&[1, 3, 2, 3, 0, 2]), vec![1, 3, 2, 5, 0, 4]);
    assert!(descending(&[]).is_empty());
}
