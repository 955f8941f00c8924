use visurx::adapter::eq_ignore_ascii_case;
use visurx::adapter::AdapterError;
use visurx::adapter::OutputFormat;
use visurx::error::panic_message;
use visurx::error::EngineError;
use visurx::error::ErrorProfile;
use visurx::error::FileError;
use visurx::error::PanicPayload;
use visurx::error::PhysicsError;
use visurx::error::Stage;
use visurx::panic_safety::apply_batch_policy;
use visurx::panic_safety::settle_file;
use visurx::panic_safety::settle_stage;

fn text(s: &str) -> String {
    s.to_string()
}

#[test]
fn from_flag_defaults_to_proto_for_unrecognized_input() {
    assert_eq!(OutputFormat::from_flag("json"), OutputFormat::Json);
    assert_eq!(OutputFormat::from_flag("JSON"), OutputFormat::Json);
    assert_eq!(OutputFormat::from_flag("proto"), OutputFormat::Proto);
    assert_eq!(OutputFormat::from_flag("nonsense"), OutputFormat::Proto);
}

#[test]
fn the_case_of_a_flag_does_not_matter() {
    assert_eq!(OutputFormat::from_flag("jSoN"), OutputFormat::Json);
    assert_eq!(OutputFormat::from_flag("json "), OutputFormat::Proto);
    assert_eq!(OutputFormat::from_flag(""), OutputFormat::Proto);
    assert!(eq_ignore_ascii_case("AbC", "aBc"));
    assert!(!eq_ignore_ascii_case("\u{c4}", "\u{e4}"));
}

#[test]
fn adapter_errors_say_what_failed() {
    let proto = AdapterError::encoding(OutputFormat::Proto, text("no room"));
    assert_eq!(proto.to_string(), "failed to encode as protobuf: no room");
    let json = AdapterError::encoding(OutputFormat::Json, text("bad key"));
    assert_eq!(json.to_string(), "failed to encode as JSON: bad key");
    let io = AdapterError::Io { path: text("out/a.pb"), detail: text("denied") };
    assert_eq!(io.to_string(), "failed to write 'out/a.pb': denied");
}

#[test]
fn engine_errors_say_what_failed() {
    let io = EngineError::Io { path: text("a.ts"), detail: text("denied") };
    assert_eq!(io.to_string(), "Failed to read 'a.ts' from local filesystem: denied");
    assert_eq!(
        EngineError::NoParseableFiles.to_string(),
        "No parseable files (.js/.jsx/.ts/.tsx/.mjs/.cjs/.mts/.cts) found in the archive"
    );
    let aborted = EngineError::AbortedOnPanic { file: text("a.ts"), message: text("boom") };
    assert_eq!(
        String::from(aborted),
        "A file caused a Rust panic during processing (dev profile is fail-closed): a.ts: boom"
    );
    let header = EngineError::InvalidZipHeader { detail: text("d") };
    assert_eq!(header.to_string(), "Not a valid ZIP file: d");
    let corrupted = EngineError::ZipCorrupted { reason: text("r") };
    assert_eq!(corrupted.to_string(), "ZIP archive is corrupted or not a valid ZIP: r");
}

fn file_errors() -> Vec<FileError> {
    vec![
        FileError::InvalidUtf8 { path: text("p") },
        FileError::ParsePanicked { path: text("p") },
        FileError::SemanticBuildFailed { path: text("p"), detail: text("d") },
        FileError::CfgUnavailable { path: text("p"), detail: text("d") },
        FileError::ResolutionFailed { path: text("p"), specifier: text("s"), detail: text("d") },
        FileError::RustPanic { path: text("p"), stage: Stage::Cfg, message: text("m") },
    ]
}

#[test]
fn developers_are_told_the_details_of_a_file_error() {
    let told: Vec<String> =
        file_errors().iter().map(|e| e.render_message(ErrorProfile::Dev)).collect();
    assert_eq!(
        told,
        vec![
            "'p' is not valid UTF-8",
            "Parser panicked on 'p' (unrecoverable syntax errors)",
            "Semantic analysis failed for 'p': d",
            "CFG unavailable for 'p': d",
            "Resolution failed for specifier 's' in 'p': d",
            "Rust panic while processing 'p' at stage Cfg: m",
        ]
    );
    for error in file_errors() {
        assert_eq!(error.to_string(), error.render_message(ErrorProfile::Dev));
        assert_eq!(error.file_path(), "p");
    }
}

#[test]
fn users_are_told_a_code_without_paths_and_details() {
    let told: Vec<String> =
        file_errors().iter().map(|e| e.render_message(ErrorProfile::Prod)).collect();
    assert_eq!(
        told,
        vec![
            "file_encoding_error",
            "parse_failed",
            "semantic_analysis_failed",
            "cfg_unavailable",
            "import_resolution_failed",
            "internal_error_at_cfg",
        ]
    );
    let other = FileError::RustPanic { path: text("q"), stage: Stage::Cfg, message: text("n") };
    assert_eq!(other.render_message(ErrorProfile::Prod), "internal_error_at_cfg");
}

#[test]
fn stages_have_a_code_and_a_name() {
    let stages = [Stage::Parse, Stage::Semantic, Stage::Cfg, Stage::Resolve];
    let codes: Vec<&str> = stages.iter().map(|s| s.as_str()).collect();
    let names: Vec<&str> = stages.iter().map(|s| s.name()).collect();
    assert_eq!(codes, vec!["parse", "semantic", "cfg", "resolve"]);
    assert_eq!(names, vec!["Parse", "Semantic", "Cfg", "Resolve"]);
    for stage in stages {
        assert_eq!(format!("{stage:?}"), stage.name());
    }
}

#[test]
fn a_panic_is_described_by_its_message() {
    assert_eq!(panic_message(&PanicPayload::Literal("boom")), "boom");
    assert_eq!(panic_message(&PanicPayload::Owned(text("boom 2"))), "boom 2");
    assert_eq!(
        panic_message(&PanicPayload::Other),
        "non-string panic payload (unknown cause)"
    );
}

#[test]
fn physics_errors_say_what_failed() {
    assert_eq!(
        PhysicsError::EmptyGraph.to_string(),
        "Cannot initialize physics: graph has 0 nodes"
    );
    assert_eq!(
        PhysicsError::BufferSizeMismatch { expected: 12, actual: 9 }.to_string(),
        "Position/velocity buffer length mismatch: expected 12, got 9"
    );
    assert_eq!(
        PhysicsError::NodeIndexOutOfBounds { index: 7, node_count: 3 }.to_string(),
        "Node index 7 out of bounds (graph has 3 nodes)"
    );
    assert_eq!(
        PhysicsError::TickPanic { tick_number: u64::MAX, message: text("m") }.to_string(),
        "Physics simulation panicked during tick 18446744073709551615: m"
    );
}

#[test]
fn a_stage_that_panics_is_a_file_error_of_that_stage() {
    let fine: Result<Result<u8, FileError>, PanicPayload> = Ok(Ok(3));
    assert!(matches!(settle_stage("a.ts", Stage::Resolve, fine), Ok(3)));
    let failed: Result<Result<u8, FileError>, PanicPayload> =
        Ok(Err(FileError::InvalidUtf8 { path: text("b.ts") }));
    assert!(matches!(
        settle_stage("a.ts", Stage::Resolve, failed),
        Err(FileError::InvalidUtf8 { path }) if path == "b.ts"
    ));
    let panicked: Result<Result<u8, FileError>, PanicPayload> =
        Err(PanicPayload::Owned(text("boom")));
    assert!(matches!(
        settle_stage("a.ts", Stage::Resolve, panicked),
        Err(FileError::RustPanic { path, stage: Stage::Resolve, message })
            if path == "a.ts" && message == "boom"
    ));
}

#[test]
fn a_file_that_panics_does_not_end_the_run() {
    let panicked: Result<Result<u8, FileError>, PanicPayload> = Err(PanicPayload::Other);
    let result = settle_file("a.ts", panicked);
    assert!(matches!(&result, Err(e) if e.file_path() == "a.ts"));
    let fine: Result<Result<u8, FileError>, PanicPayload> = Ok(Ok(1));
    assert!(matches!(settle_file("a.ts", fine), Ok(1)));
}

#[test]
fn only_a_panic_seen_by_developers_ends_the_run() {
    for error in file_errors() {
        assert!(apply_batch_policy(&error, ErrorProfile::Prod).is_ok());
        let ends = matches!(error, FileError::RustPanic { .. });
        assert_eq!(apply_batch_policy(&error, ErrorProfile::Dev).is_err(), ends);
    }
    let panic = FileError::RustPanic { path: text("p"), stage: Stage::Parse, message: text("m") };
    assert!(matches!(
        apply_batch_policy(&panic, ErrorProfile::Dev),
        Err(EngineError::AbortedOnPanic { file, message }) if file == "p" && message == "m"
    ));
}
