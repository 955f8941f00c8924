use std::path::Path;
use visurx::engine::analyse;
use visurx::engine::cfg::analyze_all;
use visurx::engine::cfg::analyze_file_cfg;
use visurx::engine::cfg::build_cfg_blocks;
use visurx::engine::cfg::complexity::block_anchor;
use visurx::engine::cfg::complexity::complexity_for_span;
use visurx::engine::cfg::complexity::members;
use visurx::engine::cfg::flow_graph::FlowBlock;
use visurx::engine::cfg::flow_graph::FlowEdge;
use visurx::engine::cfg::flow_graph::FlowGraph;
use visurx::engine::parse::parse_all;
use visurx::engine::parse::parse_file;
use visurx::engine::parse::recorder::parse_program;
use visurx::engine::parse::source_type::kind_or_fallback;
use visurx::engine::parse::source_type::resolve_source_type;
use visurx::engine::parse::source_type::Extension;
use visurx::engine::parse::source_type::Language;
use visurx::engine::parse::source_type::LanguageVariant;
use visurx::engine::parse::source_type::ModuleKind;
use visurx::engine::parse::source_type::SourceKind;
use visurx::engine::parse::syntax::assemble;
use visurx::engine::parse::syntax::assemble_program;
use visurx::engine::parse::syntax::NodeEvent;
use visurx::engine::parse::syntax::NodeKind;
use visurx::engine::parse::ParseBatch;
use visurx::engine::resolve::vfs_filesystem::normalize_key;
use visurx::engine::semantic;
use visurx::engine::semantic::extract_all;
use visurx::engine::semantic::scope_path::build_structural_id;
use visurx::engine::semantic::scope_path::ScopeGuard;
use visurx::engine::semantic::scope_path::ScopePath;
use visurx::engine::semantic::symbol_classify;
use visurx::engine::semantic::symbol_classify::collect_top_level_exported_names;
use visurx::engine::semantic::symbol_classify::Symbol;
use visurx::engine::semantic::symbol_classify::SymbolKind;
use visurx::engine::semantic::SemanticBatch;
use visurx::error::FileError;
use visurx::vfs::Vfs;

fn project(files: &[(&str, &str)]) -> Vfs {
    let mut vfs = Vfs::empty();
    for (path, source) in files {
        vfs.insert(path, source.as_bytes().to_vec());
    }
    vfs
}

// ---- parsing ----

#[test]
fn parses_valid_typescript_cleanly() {
    let mut vfs = Vfs::empty();
    vfs.insert(
        "src/add.ts",
        b"export function add(a: number, b: number) { return a + b; }".to_vec(),
    );

    let outcome = parse_file(&vfs, "src/add.ts").unwrap();
    assert!(!outcome.panicked);
    assert_eq!(outcome.diagnostic_count, 0);
    assert!(outcome.is_typescript);
    assert!(!outcome.has_parse_errors());
}

#[test]
fn missing_file_yields_invalid_utf8_error_not_a_panic() {
    let vfs = Vfs::empty();
    let err = parse_file(&vfs, "src/does-not-exist.ts").unwrap_err();
    assert!(matches!(err, FileError::InvalidUtf8 { .. }));
}

#[test]
fn unrecoverable_syntax_error_is_flagged_panicked_not_a_rust_panic() {
    let mut vfs = Vfs::empty();
    vfs.insert("src/broken.ts", b"const x = \"unterminated".to_vec());

    let outcome = parse_file(&vfs, "src/broken.ts").unwrap();
    assert!(outcome.has_parse_errors());
}

#[test]
fn parse_all_tracks_failures_separately_from_outcomes() {
    let mut vfs = Vfs::empty();
    vfs.insert("src/ok.ts", b"export const x = 1;".to_vec());

    let batch = parse_all(&vfs, &["src/ok.ts", "src/missing.ts"]);
    assert_eq!(batch.outcomes.len(), 1);
    assert_eq!(batch.failures.len(), 1);
    assert!(matches!(batch.failures[0], FileError::InvalidUtf8 { .. }));
}

#[test]
fn an_outcome_says_which_language_was_parsed() {
    let vfs = project(&[("a.jsx", "const a = <b/>;"), ("b.tsx", "const a = <b/>;"), ("c.js", "1;")]);
    let batch = parse_all(&vfs, &["a.jsx", "b.tsx", "c.js"]);
    let flags: Vec<(bool, bool)> =
        batch.outcomes.iter().map(|o| (o.is_typescript, o.is_jsx)).collect();
    assert_eq!(flags[0], (false, true));
    assert_eq!(flags[1], (true, true));
    assert!(!flags[2].0);
    assert_eq!(batch.outcomes[1].path, "b.tsx");
    assert!(batch.failures.is_empty());
}

#[test]
fn bytes_that_are_no_text_fail_to_parse() {
    let mut vfs = Vfs::empty();
    vfs.insert("a.ts", vec![0x80]);
    match parse_file(&vfs, "a.ts") {
        Err(FileError::InvalidUtf8 { path }) => assert_eq!(path, "a.ts"),
        other => panic!("expected an encoding error, got {other:?}"),
    }
}

#[test]
fn a_batch_keeps_what_was_recorded_in_order() {
    let vfs = project(&[("a.ts", "1;"), ("b.ts", "2;")]);
    let mut batch = ParseBatch::new();
    for path in ["a.ts", "x.ts", "b.ts", "y.ts"] {
        batch.record(parse_file(&vfs, path));
    }
    let parsed: Vec<&str> = batch.outcomes.iter().map(|o| o.path.as_str()).collect();
    let failed: Vec<&str> = batch.failures.iter().map(|f| f.file_path()).collect();
    assert_eq!(parsed, vec!["a.ts", "b.ts"]);
    assert_eq!(failed, vec!["x.ts", "y.ts"]);
}

#[test]
fn the_extension_decides_the_source_type() {
    let ts = resolve_source_type("src/a.ts");
    assert_eq!(ts.language, Language::TypeScript);
    assert_eq!(ts.module_kind, ModuleKind::Unambiguous);
    assert_eq!(resolve_source_type("a.mts").module_kind, ModuleKind::Module);
    assert_eq!(ts.variant, LanguageVariant::Standard);
    assert_eq!(ts.extension, Some(Extension::Ts));
    let declarations = resolve_source_type("src/a.d.ts");
    assert_eq!(declarations.language, Language::TypeScriptDefinition);
    let cjs = resolve_source_type("a.cjs");
    assert_eq!(cjs.language, Language::JavaScript);
    assert_eq!(cjs.module_kind, ModuleKind::CommonJs);
    assert!(resolve_source_type("a.tsx").is_jsx());
    assert!(resolve_source_type("a.mts").is_typescript());
}

#[test]
fn an_unknown_extension_falls_back_to_typescript_modules_with_jsx() {
    let unknown = resolve_source_type("README.md");
    assert!(unknown.is_typescript());
    assert!(unknown.is_jsx());
    assert_eq!(unknown.module_kind, ModuleKind::Module);
    assert_eq!(unknown.extension, None);
    let fallback = kind_or_fallback(None);
    assert!(fallback.is_typescript() && fallback.is_jsx());
    let js = resolve_source_type("a.js");
    assert_eq!(kind_or_fallback(Some(js)).extension, Some(Extension::Js));
}

// ---- syntax trees ----

fn enter(name: &str) -> NodeEvent<String> {
    NodeEvent::Enter {
        kind: NodeKind::Interface { name: name.to_string() },
        span_start: 1,
        span_end: 2,
    }
}

fn name_of(kind: &NodeKind<String>) -> String {
    match kind {
        NodeKind::Interface { name } => name.clone(),
        _ => "?".to_string(),
    }
}

#[test]
fn a_walk_assembles_to_the_tree_that_was_walked() {
    let nodes = assemble(vec![
        enter("a"),
        enter("b"),
        NodeEvent::Leave,
        enter("c"),
        enter("d"),
        NodeEvent::Leave,
        NodeEvent::Leave,
        NodeEvent::Leave,
        enter("e"),
        NodeEvent::Leave,
    ]);
    assert_eq!(nodes.len(), 2);
    assert_eq!(name_of(&nodes[0].kind), "a");
    assert_eq!(name_of(&nodes[1].kind), "e");
    let children: Vec<String> = nodes[0].children.iter().map(|n| name_of(&n.kind)).collect();
    assert_eq!(children, vec!["b", "c"]);
    assert_eq!(name_of(&nodes[0].children[1].children[0].kind), "d");
    assert_eq!((nodes[1].span_start, nodes[1].span_end), (1, 2));
}

#[test]
fn a_program_is_what_stands_below_the_outermost_node() {
    let program = assemble_program(vec![enter("program"), enter("a"), NodeEvent::Leave, NodeEvent::Leave]);
    assert_eq!(program.body.len(), 1);
    assert_eq!(name_of(&program.body[0].kind), "a");
    assert!(assemble_program(Vec::new()).body.is_empty());
}

#[test]
fn the_statements_of_a_source_are_the_body_of_its_program() {
    let program = parse_program("interface A {}\nfunction f() {}", resolve_source_type("a.ts"));
    assert_eq!(program.body.len(), 2);
    assert!(matches!(&program.body[0].kind, NodeKind::Interface { name } if name == "A"));
    assert!(matches!(
        &program.body[1].kind,
        NodeKind::Function { name: Some(name) } if name == "f"
    ));
    assert_eq!((program.body[1].span_start, program.body[1].span_end), (15, 30));
}

// ---- scopes and ids ----

#[test]
fn top_level_symbol_has_no_scope_segment() {
    let path = ScopePath::new();
    let id = build_structural_id("src/counter.ts", &path, "add", "function");
    assert_eq!(id, "src/counter.ts::add::function");
}

#[test]
fn nested_method_includes_class_scope() {
    let mut path = ScopePath::new();
    {
        let guard = ScopeGuard::enter(&mut path, "Counter");
        let id = build_structural_id("src/counter.ts", &guard, "increment", "method");
        assert_eq!(id, "src/counter.ts::Counter::increment::method");
    }
    assert!(path.is_top_level());
}

#[test]
fn the_last_piece_of_a_path_says_how_a_file_is_read() {
    let shown = |path: &str| format!("{:?}", resolve_source_type(path));
    let plain = shown("a/b.d.ts");
    for path in ["./a/b.d.ts", "a//b.d.ts", "a/b.d.ts/", "a/b.d.ts/.", "/b.d.ts", "a/ab:c/b.d.ts"] {
        assert_eq!(shown(path), plain);
    }
    let unknown = shown("a");
    for path in ["", "/", ".", "a.ts/..", ".ts"] {
        assert_eq!(shown(path), unknown);
    }
}

#[test]
fn a_guard_leaves_the_path_as_it_was() {
    let mut path = ScopePath::new();
    path.push("Outer");
    {
        let guard = ScopeGuard::enter(&mut path, "Inner");
        assert_eq!(guard.depth(), 2);
        assert_eq!(guard.as_str(), "Outer::Inner");
    }
    assert_eq!(path.depth(), 1);
    assert_eq!(path.as_str(), "Outer");
}

fn enters_and_returns_early(path: &mut ScopePath, bail: bool) -> usize {
    let guard = ScopeGuard::enter(path, "Counter");
    if bail {
        return guard.depth();
    }
    0
}

#[test]
fn guard_pops_automatically_on_drop_even_via_early_return() {
    let mut path = ScopePath::new();

    let depth_at_return = enters_and_returns_early(&mut path, true);
    assert_eq!(depth_at_return, 1);
    assert!(
        path.is_top_level(),
        "guard must have popped despite the early return"
    );
}

#[test]
fn two_methods_same_name_different_class_get_different_ids() {
    let mut path_a = ScopePath::new();
    path_a.push("Dog");
    let id_a = build_structural_id("src/animals.ts", &path_a, "speak", "method");

    let mut path_b = ScopePath::new();
    path_b.push("Cat");
    let id_b = build_structural_id("src/animals.ts", &path_b, "speak", "method");

    assert_ne!(id_a, id_b);
}

#[test]
fn leaving_a_scope_undoes_entering_it() {
    let mut path = ScopePath::default();
    path.pop();
    assert_eq!(path.depth(), 0);
    path.push("A");
    path.push("B");
    assert_eq!(path.as_str(), "A::B");
    path.pop();
    assert_eq!(path.as_str(), "A");
    path.push("C");
    assert_eq!(path.as_str(), "A::C");
    let copy = path.clone();
    path.pop();
    path.pop();
    assert!(path.is_top_level());
    assert_eq!(path.as_str(), "");
    assert_eq!(copy.as_str(), "A::C");
}

// ---- symbols ----

fn extract(source: &str) -> Vec<Symbol> {
    let kind = SourceKind {
        language: Language::TypeScript,
        module_kind: ModuleKind::Module,
        variant: LanguageVariant::Standard,
        extension: None,
    };
    symbol_classify::extract_symbols(&parse_program(source, kind), "test.ts")
}

#[test]
fn extracts_bare_top_level_function() {
    let symbols = extract("function add(a, b) { return a + b; }");
    assert_eq!(symbols.len(), 1);
    assert!(!symbols[0].exported);
}

#[test]
fn extracts_exported_interface_type_alias_enum_variable() {
    let source = r#"
            export interface Foo { x: number }
            export type Bar = string;
            export enum Color { Red, Green }
            export const CONFIG = 1;
        "#;
    let symbols = extract(source);
    assert_eq!(symbols.len(), 4);
    assert!(symbols.iter().all(|s| s.exported));
}

#[test]
fn named_reexport_marks_symbol_exported_regardless_of_order() {
    let symbols = extract("function helper() {}\nexport { helper };");
    assert_eq!(symbols.len(), 1);
    assert!(symbols[0].exported);
}

#[test]
fn reexport_from_other_module_does_not_falsely_mark_local_symbol() {
    let symbols = extract("function helper() {}\nexport { helper } from './other';");
    assert_eq!(symbols.len(), 1);
    assert!(!symbols[0].exported);
}

#[test]
fn export_default_object_literal_marks_referenced_names_exported() {
    let source = "function a() {}\nfunction b() {}\nexport default { a, b };";
    let symbols = extract(source);
    assert_eq!(symbols.len(), 2);
    assert!(symbols.iter().all(|s| s.exported));
}

#[test]
fn class_methods_include_private_and_kind_suffix_get_set_constructor() {
    let source = r#"
            export class Counter {
                constructor(start) {}
                get value() { return 1; }
                set value(v) {}
                #privateHelper() {}
            }
        "#;
    let symbols = extract(source);
    let methods: Vec<&Symbol> = symbols
        .iter()
        .filter(|s| s.kind == SymbolKind::Method)
        .collect();
    assert_eq!(methods.len(), 4);
    assert!(methods.iter().any(|m| m.name.contains("constructor")));
    assert!(methods.iter().any(|m| m.name.contains("get")));
    assert!(methods.iter().any(|m| m.name.contains("set")));
    assert!(methods.iter().any(|m| m.name == "#privateHelper"));
    assert!(methods
        .iter()
        .all(|m| m.id.starts_with("test.ts::Counter::")));
}

#[test]
fn computed_class_key_is_skipped_not_guessed() {
    let symbols = extract("class Foo { [Symbol.iterator]() {} }");
    assert_eq!(symbols.len(), 1);
    assert_eq!(symbols[0].kind, SymbolKind::Class);
}

#[test]
fn does_not_descend_into_function_bodies() {
    let source = "function outer() { function inner() {} const x = 1; }";
    let symbols = extract(source);
    assert_eq!(symbols.len(), 1);
    assert_eq!(symbols[0].name, "outer");
}

#[test]
fn does_not_leak_variables_from_arrow_function_callbacks() {
    let source = r#"
            describe("suite", () => {
                it("does a thing", async () => {
                    const response = await doSomething();
                    const request = buildRequest();
                });
            });
        "#;
    let symbols = extract(source);
    assert_eq!(
        symbols.len(),
        0,
        "arrow-function callback bodies must not leak local variables as symbols"
    );
}

#[test]
fn symbols_have_exact_ids_kinds_and_spans() {
    let symbols = extract("export class A { get v() { return 1; } static m() {} }\nlet x = 1, { y } = z;");
    let ids: Vec<&str> = symbols.iter().map(|s| s.id.as_str()).collect();
    assert_eq!(
        ids,
        vec![
            "test.ts::A::class",
            "test.ts::A::v (get)::method",
            "test.ts::A::m::method",
            "test.ts::x::variable",
        ]
    );
    assert_eq!((symbols[0].span_start, symbols[0].span_end), (7, 54));
    assert!(symbols[0].exported);
    assert!(!symbols[3].exported);
    assert_eq!(symbols[0].file, "test.ts");
    assert_eq!(SymbolKind::TypeAlias.as_str(), "type_alias");
}

#[test]
fn exported_names_are_found_in_every_form_of_export() {
    let kind = resolve_source_type("a.ts");
    let source = "export function f() {}\nexport const a = 1, b = 2;\nconst c = 3;\nexport { c as d };\nexport default g;\nexport { h } from './h';\nexport * from './i';";
    let names = collect_top_level_exported_names(&parse_program(source, kind));
    let mut found: Vec<&str> = names.keys();
    found.sort();
    assert_eq!(found, vec!["a", "b", "c", "f", "g"]);
}

#[test]
fn all_variables_that_are_exported_at_once_are_exported() {
    let symbols = extract("export const a = 1, b = 2, { c } = d;\nlet e = 3;");
    let exported: Vec<(&str, bool)> =
        symbols.iter().map(|s| (s.name.as_str(), s.exported)).collect();
    assert_eq!(exported, vec![("a", true), ("b", true), ("e", false)]);
}

#[test]
fn the_order_of_exports_makes_no_difference() {
    let before = extract("export { helper };\nfunction helper() {}");
    let after = extract("function helper() {}\nexport { helper };");
    assert!(before[0].exported && after[0].exported);
    assert_eq!(before[0].id, after[0].id);
}

#[test]
fn extracts_symbols_from_a_real_file_in_the_vfs() {
    let mut vfs = Vfs::empty();
    vfs.insert(
        "src/add.ts",
        b"export function add(a: number, b: number) { return a + b; }".to_vec(),
    );

    let result = semantic::extract_symbols(&vfs, "src/add.ts").unwrap();
    assert_eq!(result.symbols.len(), 1);
    assert_eq!(result.symbols[0].name, "add");
    assert!(result.symbols[0].exported);
}

#[test]
fn cfg_is_available_for_a_normal_valid_file() {
    let mut vfs = Vfs::empty();
    vfs.insert("src/add.ts", b"export function add(a, b) { return a + b; }".to_vec());

    let result = semantic::extract_symbols(&vfs, "src/add.ts").unwrap();
    assert!(result.cfg_available);
}

#[test]
fn extract_all_tracks_failures_separately() {
    let mut vfs = Vfs::empty();
    vfs.insert("src/ok.ts", b"export const x = 1;".to_vec());

    let batch = extract_all(&vfs, &["src/ok.ts", "src/missing.ts"]);
    assert_eq!(batch.symbols.len(), 1);
    assert_eq!(batch.failures.len(), 1);
}

#[test]
fn a_file_without_a_flow_graph_is_noted() {
    let vfs = project(&[("a.ts", "function f() {}")]);
    let mut batch = SemanticBatch::new();
    let mut found = semantic::extract_symbols(&vfs, "a.ts").unwrap();
    found.cfg_available = false;
    batch.record("a.ts", Ok(found));
    assert_eq!(batch.symbols.len(), 1);
    assert_eq!(batch.cfg_unavailable, vec!["a.ts".to_string()]);
    assert!(batch.failures.is_empty());
}

// ---- one pass ----

#[test]
fn single_pass_yields_both_parse_health_and_symbols() {
    let mut vfs = Vfs::empty();
    vfs.insert(
        "src/add.ts",
        b"export function add(a: number, b: number) { return a + b; }".to_vec(),
    );

    let analysis = analyse::analyze_file(&vfs, "src/add.ts").unwrap();
    assert!(!analysis.parse.has_parse_errors());
    assert_eq!(analysis.symbols.len(), 1);
    assert_eq!(analysis.symbols[0].name, "add");
    assert!(analysis.symbols[0].exported);
}

#[test]
fn analyze_all_tracks_failures_separately_from_successful_files() {
    let mut vfs = Vfs::empty();
    vfs.insert("src/ok.ts", b"export const x = 1;".to_vec());

    let batch = analyse::analyze_all(&vfs, &["src/ok.ts", "src/missing.ts"]);
    assert_eq!(batch.files.len(), 1);
    assert_eq!(batch.failures.len(), 1);
}

#[test]
fn one_pass_agrees_with_two() {
    let vfs = project(&[("a.ts", "export class A { m() {} }\nconst x = ;")]);
    let analysis = analyse::analyze_file(&vfs, "a.ts").unwrap();
    let outcome = parse_file(&vfs, "a.ts").unwrap();
    let semantics = semantic::extract_symbols(&vfs, "a.ts").unwrap();
    assert_eq!(analysis.parse, outcome);
    assert_eq!(analysis.cfg_available, semantics.cfg_available);
    assert_eq!(format!("{:?}", analysis.symbols), format!("{:?}", semantics.symbols));
}

// ---- control flow ----

#[test]
fn simple_function_with_no_branches_has_complexity_one() {
    let mut vfs = Vfs::empty();
    vfs.insert(
        "src/add.ts",
        b"export function add(a, b) { return a + b; }".to_vec(),
    );

    let semantic_batch = extract_all(&vfs, &["src/add.ts"]);
    let batch = analyze_all(&vfs, &semantic_batch.symbols, &["src/add.ts"]);

    assert_eq!(batch.reports.len(), 1);
    assert_eq!(batch.reports[0].cyclomatic_complexity, 1);
    assert!(!batch.reports[0].blocks.is_empty());
}

#[test]
fn multiple_returns_do_not_inflate_complexity_past_real_branch_count() {
    let mut vfs = Vfs::empty();
    vfs.insert(
        "src/check.ts",
        b"export function check(x: number) { if (x > 0) { return 1; } return 0; }".to_vec(),
    );

    let semantic_batch = extract_all(&vfs, &["src/check.ts"]);
    let batch = analyze_all(&vfs, &semantic_batch.symbols, &["src/check.ts"]);

    assert_eq!(batch.reports.len(), 1);
    assert_eq!(batch.reports[0].cyclomatic_complexity, 2);
}

#[test]
fn more_branches_yield_monotonically_higher_complexity() {
    let mut vfs = Vfs::empty();
    vfs.insert(
        "src/branchy.ts",
        b"export function branchy(x: number) { if (x > 0) { if (x > 10) { return 2; } return 1; } return 0; }"
            .to_vec(),
    );

    let semantic_batch = extract_all(&vfs, &["src/branchy.ts"]);
    let batch = analyze_all(&vfs, &semantic_batch.symbols, &["src/branchy.ts"]);

    assert!(batch.reports[0].cyclomatic_complexity > 2);
}

#[test]
fn only_function_and_method_symbols_get_cfg_reports() {
    let mut vfs = Vfs::empty();
    vfs.insert(
        "src/mixed.ts",
        b"export interface Foo { x: number }\nexport function bar() {}".to_vec(),
    );

    let semantic_batch = extract_all(&vfs, &["src/mixed.ts"]);
    let batch = analyze_all(&vfs, &semantic_batch.symbols, &["src/mixed.ts"]);

    assert_eq!(batch.reports.len(), 1);
    assert_eq!(batch.reports[0].name, "bar");
}

fn block(instructions: Vec<Option<(u32, u32)>>, targets: &[usize]) -> FlowBlock {
    let mut successors: Vec<FlowEdge> =
        targets.iter().map(|&target| FlowEdge { target, on_error: false }).collect();
    successors.push(FlowEdge { target: 6, on_error: true });
    FlowBlock { instructions, successors, is_unreachable: false }
}

fn diamond() -> FlowGraph {
    FlowGraph {
        blocks: vec![
            block(vec![None, Some((10, 12)), Some((13, 14))], &[1, 2]),
            block(vec![Some((20, 25))], &[3]),
            block(vec![Some((30, 35))], &[3]),
            block(vec![Some((40, 45))], &[4]),
            block(vec![None], &[]),
            block(vec![Some((90, 95))], &[0]),
            FlowBlock { instructions: Vec::new(), successors: Vec::new(), is_unreachable: false },
        ],
    }
}

#[test]
fn a_block_is_anchored_at_its_first_placed_instruction() {
    let graph = diamond();
    assert_eq!(block_anchor(&graph.blocks[0]), Some((10, 12)));
    assert_eq!(block_anchor(&graph.blocks[4]), None);
    assert_eq!(members(&graph, 10, 45), vec![true, true, true, true, false, false, false]);
}

#[test]
fn a_choice_of_two_ways_has_complexity_two() {
    let graph = diamond();
    assert_eq!(complexity_for_span(Some(&graph), 10, 50), 2);
    assert_eq!(complexity_for_span(Some(&graph), 40, 50), 1);
    assert_eq!(complexity_for_span(Some(&graph), 50, 60), 1);
    assert_eq!(complexity_for_span(None, 10, 50), 1);
}

#[test]
fn returning_early_adds_nothing() {
    let mut graph = diamond();
    graph.blocks[1].successors[0].target = 4;
    assert_eq!(complexity_for_span(Some(&graph), 10, 50), 2);
    graph.blocks[1].successors.push(FlowEdge { target: 5, on_error: false });
    assert_eq!(complexity_for_span(Some(&graph), 10, 50), 2);
}

#[test]
fn one_more_branch_adds_one() {
    let mut graph = diamond();
    graph.blocks[1].successors.push(FlowEdge { target: 2, on_error: false });
    assert_eq!(complexity_for_span(Some(&graph), 10, 50), 3);
}

#[test]
fn a_function_that_returns_and_also_runs_to_its_end_counts_its_branches() {
    let vfs = project(&[(
        "a.ts",
        "function f(x) { if (x) { return 1; } g(); }\nfunction h(x) { if (x) { g(); } }\nfunction i(x) { while (x) { g(); } }\nfunction j() { g(); }",
    )]);
    let symbols = extract_all(&vfs, &["a.ts"]).symbols;
    let reports = analyze_file_cfg(&vfs, "a.ts", &symbols).unwrap();
    let found: Vec<u32> = reports.iter().map(|r| r.cyclomatic_complexity).collect();
    assert_eq!(found, vec![2, 2, 2, 1]);
}

#[test]
fn blocks_are_numbered_and_point_at_blocks_of_the_same_function() {
    let graph = diamond();
    let blocks = build_cfg_blocks(Some(&graph), 10, 50);
    let ids: Vec<&str> = blocks.iter().map(|b| b.block_id.as_str()).collect();
    assert_eq!(ids, vec!["block_0", "block_1", "block_2", "block_3"]);
    assert_eq!(blocks[0].next, vec!["block_1".to_string(), "block_2".to_string()]);
    assert_eq!((blocks[0].span_start, blocks[0].span_end), (10, 12));
    assert!(blocks[3].next.is_empty());
    assert!(build_cfg_blocks(None, 10, 50).is_empty());
}

#[test]
fn a_missing_file_has_no_reports() {
    let batch = analyze_all(&Vfs::empty(), &[], &["a.ts"]);
    assert!(batch.reports.is_empty());
    assert!(matches!(&batch.failures[0], FileError::InvalidUtf8 { path } if path == "a.ts"));
}

#[test]
fn symbols_of_other_files_are_not_reported_on() {
    let vfs = project(&[("a.ts", "function f() {}"), ("b.ts", "function g() {}")]);
    let symbols = extract_all(&vfs, &["a.ts", "b.ts"]).symbols;
    let reports = analyze_file_cfg(&vfs, "b.ts", &symbols).unwrap();
    assert_eq!(reports.len(), 1);
    assert_eq!(reports[0].symbol_id, "b.ts::g::function");
}

// ---- paths ----

#[test]
fn normalize_key_collapses_parent_dir_components() {
    let path = Path::new("src/auth/../helpers/asyncHandler.ts");
    assert_eq!(normalize_key(path), "src/helpers/asyncHandler.ts");
}

#[test]
fn normalize_key_collapses_multiple_parent_dir_levels() {
    let path = Path::new("src/database/repository/../../helpers/utils.ts");
    assert_eq!(normalize_key(path), "src/helpers/utils.ts");
}
