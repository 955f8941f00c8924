//! What can go wrong: errors that end a run, errors of one file that do
//! not, and how each is put in words.
use crate::text::append_decimal;
use crate::text;
use vstd::prelude::*;
use vstd::string::*;

verus! {

/// Whom error texts are written for.
#[derive(Debug, Clone, Copy, PartialEq, Eq, Structural)]
pub enum ErrorProfile {
    Dev,
    Prod,
}

/// The step of the analysis at which a file was being processed.
#[derive(Debug, Clone, Copy, PartialEq, Eq, Structural)]
pub enum Stage {
    Parse,
    Semantic,
    Cfg,
    Resolve,
}

/// The name of a stage in codes.
pub open spec fn stage_code(stage: Stage) -> Seq<char> {
    match stage {
        Stage::Parse => "parse"@,
        Stage::Semantic => "semantic"@,
        Stage::Cfg => "cfg"@,
        Stage::Resolve => "resolve"@,
    }
}

/// The name of a stage in messages.
pub open spec fn stage_name(stage: Stage) -> Seq<char> {
    match stage {
        Stage::Parse => "Parse"@,
        Stage::Semantic => "Semantic"@,
        Stage::Cfg => "Cfg"@,
        Stage::Resolve => "Resolve"@,
    }
}

impl Stage {
    /// The name of the stage in codes.
    pub fn as_str(&self) -> (s: &'static str)
        ensures
            s@ == stage_code(*self),
    {
        match self {
            Stage::Parse => "parse",
            Stage::Semantic => "semantic",
            Stage::Cfg => "cfg",
            Stage::Resolve => "resolve",
        }
    }

    /// The name of the stage in messages.
    pub fn name(&self) -> (s: &'static str)
        ensures
            s@ == stage_name(*self),
    {
        match self {
            Stage::Parse => "Parse",
            Stage::Semantic => "Semantic",
            Stage::Cfg => "Cfg",
            Stage::Resolve => "Resolve",
        }
    }
}

/// An error that ends the run.
#[derive(Debug)]
pub enum EngineError {
    InvalidZipHeader { detail: String },
    ZipCorrupted { reason: String },
    Io { path: String, detail: String },
    NoParseableFiles,
    AbortedOnPanic { file: String, message: String },
}

/// An `EngineError` by its characters.
pub enum EngineErrorView {
    InvalidZipHeader { detail: Seq<char> },
    ZipCorrupted { reason: Seq<char> },
    Io { path: Seq<char>, detail: Seq<char> },
    NoParseableFiles,
    AbortedOnPanic { file: Seq<char>, message: Seq<char> },
}

impl View for EngineError {
    type V = EngineErrorView;

    open spec fn view(&self) -> EngineErrorView {
        match *self {
            EngineError::InvalidZipHeader { detail } => EngineErrorView::InvalidZipHeader {
                detail: detail@,
            },
            EngineError::ZipCorrupted { reason } => EngineErrorView::ZipCorrupted {
                reason: reason@,
            },
            EngineError::Io { path, detail } => EngineErrorView::Io {
                path: path@,
                detail: detail@,
            },
            EngineError::NoParseableFiles => EngineErrorView::NoParseableFiles,
            EngineError::AbortedOnPanic { file, message } => EngineErrorView::AbortedOnPanic {
                file: file@,
                message: message@,
            },
        }
    }
}

/// An `EngineError` in words.
pub open spec fn engine_message(error: EngineErrorView) -> Seq<char> {
    match error {
        EngineErrorView::InvalidZipHeader { detail } => "Not a valid ZIP file: "@ + detail,
        EngineErrorView::ZipCorrupted { reason } =>
            "ZIP archive is corrupted or not a valid ZIP: "@ + reason,
        EngineErrorView::Io { path, detail } => "Failed to read '"@ + path
            + "' from local filesystem: "@ + detail,
        EngineErrorView::NoParseableFiles =>
            "No parseable files (.js/.jsx/.ts/.tsx/.mjs/.cjs/.mts/.cts) found in the archive"@,
        EngineErrorView::AbortedOnPanic { file, message } =>
            "A file caused a Rust panic during processing (dev profile is fail-closed): "@ + file
            + ": "@ + message,
    }
}

impl EngineError {
    /// The error in words.
    pub fn to_string(&self) -> (s: String)
        ensures
            s@ == engine_message(self@),
    {
        match self {
            EngineError::InvalidZipHeader { detail } => {
                String::from_str("Not a valid ZIP file: ").concat(detail)
            },
            EngineError::ZipCorrupted { reason } => {
                String::from_str("ZIP archive is corrupted or not a valid ZIP: ").concat(reason)
            },
            EngineError::Io { path, detail } => {
                let mut s = String::from_str("Failed to read '");
                s.append(path);
                s.append("' from local filesystem: ");
                s.append(detail);
                s
            },
            EngineError::NoParseableFiles => String::from_str(
                "No parseable files (.js/.jsx/.ts/.tsx/.mjs/.cjs/.mts/.cts) found in the archive",
            ),
            EngineError::AbortedOnPanic { file, message } => {
                let mut s = String::from_str(
                    "A file caused a Rust panic during processing (dev profile is fail-closed): ",
                );
                s.append(file);
                s.append(": ");
                s.append(message);
                s
            },
        }
    }
}

impl From<EngineError> for String {
    fn from(err: EngineError) -> (s: Self)
        ensures
            s@ == engine_message(err@),
    {
        err.to_string()
    }
}

impl vstd::std_specs::convert::FromSpecImpl<EngineError> for String {
    open spec fn obeys_from_spec() -> bool {
        false
    }

    open spec fn from_spec(err: EngineError) -> Self {
        arbitrary()
    }
}

/// An error that concerns one file; the run goes on without it.
#[derive(Debug)]
pub enum FileError {
    InvalidUtf8 { path: String },
    ParsePanicked { path: String },
    SemanticBuildFailed { path: String, detail: String },
    CfgUnavailable { path: String, detail: String },
    ResolutionFailed { path: String, specifier: String, detail: String },
    RustPanic { path: String, stage: Stage, message: String },
}

/// A `FileError` by its characters.
pub enum FileErrorView {
    InvalidUtf8 { path: Seq<char> },
    ParsePanicked { path: Seq<char> },
    SemanticBuildFailed { path: Seq<char>, detail: Seq<char> },
    CfgUnavailable { path: Seq<char>, detail: Seq<char> },
    ResolutionFailed { path: Seq<char>, specifier: Seq<char>, detail: Seq<char> },
    RustPanic { path: Seq<char>, stage: Stage, message: Seq<char> },
}

impl View for FileError {
    type V = FileErrorView;

    open spec fn view(&self) -> FileErrorView {
        match *self {
            FileError::InvalidUtf8 { path } => FileErrorView::InvalidUtf8 { path: path@ },
            FileError::ParsePanicked { path } => FileErrorView::ParsePanicked { path: path@ },
            FileError::SemanticBuildFailed { path, detail } => FileErrorView::SemanticBuildFailed {
                path: path@,
                detail: detail@,
            },
            FileError::CfgUnavailable { path, detail } => FileErrorView::CfgUnavailable {
                path: path@,
                detail: detail@,
            },
            FileError::ResolutionFailed { path, specifier, detail } =>
                FileErrorView::ResolutionFailed {
                path: path@,
                specifier: specifier@,
                detail: detail@,
            },
            FileError::RustPanic { path, stage, message } => FileErrorView::RustPanic {
                path: path@,
                stage,
                message: message@,
            },
        }
    }
}

/// The file that the error is about.
pub open spec fn error_path(error: FileErrorView) -> Seq<char> {
    match error {
        FileErrorView::InvalidUtf8 { path } => path,
        FileErrorView::ParsePanicked { path } => path,
        FileErrorView::SemanticBuildFailed { path, .. } => path,
        FileErrorView::CfgUnavailable { path, .. } => path,
        FileErrorView::ResolutionFailed { path, .. } => path,
        FileErrorView::RustPanic { path, .. } => path,
    }
}

/// A `FileError` in words.
pub open spec fn file_message(error: FileErrorView) -> Seq<char> {
    match error {
        FileErrorView::InvalidUtf8 { path } => "'"@ + path + "' is not valid UTF-8"@,
        FileErrorView::ParsePanicked { path } => "Parser panicked on '"@ + path
            + "' (unrecoverable syntax errors)"@,
        FileErrorView::SemanticBuildFailed { path, detail } => "Semantic analysis failed for '"@
            + path + "': "@ + detail,
        FileErrorView::CfgUnavailable { path, detail } => "CFG unavailable for '"@ + path + "': "@
            + detail,
        FileErrorView::ResolutionFailed { path, specifier, detail } =>
            "Resolution failed for specifier '"@ + specifier + "' in '"@ + path + "': "@ + detail,
        FileErrorView::RustPanic { path, stage, message } => "Rust panic while processing '"@ + path
            + "' at stage "@ + stage_name(stage) + ": "@ + message,
    }
}

/// The code by which users are told of a `FileError`: no path and no detail.
pub open spec fn file_error_code(error: FileErrorView) -> Seq<char> {
    match error {
        FileErrorView::InvalidUtf8 { .. } => "file_encoding_error"@,
        FileErrorView::ParsePanicked { .. } => "parse_failed"@,
        FileErrorView::SemanticBuildFailed { .. } => "semantic_analysis_failed"@,
        FileErrorView::CfgUnavailable { .. } => "cfg_unavailable"@,
        FileErrorView::ResolutionFailed { .. } => "import_resolution_failed"@,
        FileErrorView::RustPanic { stage, .. } => "internal_error_at_"@ + stage_code(stage),
    }
}

/// What `render_message` says of `error` under `profile`.
pub open spec fn rendered(error: FileErrorView, profile: ErrorProfile) -> Seq<char> {
    match profile {
        ErrorProfile::Dev => file_message(error),
        ErrorProfile::Prod => file_error_code(error),
    }
}

impl FileError {
    /// The file that the error is about.
    pub fn file_path(&self) -> (path: &str)
        ensures
            path@ == error_path(self@),
    {
        match self {
            FileError::InvalidUtf8 { path } => path,
            FileError::ParsePanicked { path } => path,
            FileError::SemanticBuildFailed { path, .. } => path,
            FileError::CfgUnavailable { path, .. } => path,
            FileError::ResolutionFailed { path, .. } => path,
            FileError::RustPanic { path, .. } => path,
        }
    }

    /// The error in words.
    pub fn to_string(&self) -> (s: String)
        ensures
            s@ == file_message(self@),
    {
        match self {
            FileError::InvalidUtf8 { path } => {
                let mut s = String::from_str("'");
                s.append(path);
                s.append("' is not valid UTF-8");
                s
            },
            FileError::ParsePanicked { path } => {
                let mut s = String::from_str("Parser panicked on '");
                s.append(path);
                s.append("' (unrecoverable syntax errors)");
                s
            },
            FileError::SemanticBuildFailed { path, detail } => {
                let mut s = String::from_str("Semantic analysis failed for '");
                s.append(path);
                s.append("': ");
                s.append(detail);
                s
            },
            FileError::CfgUnavailable { path, detail } => {
                let mut s = String::from_str("CFG unavailable for '");
                s.append(path);
                s.append("': ");
                s.append(detail);
                s
            },
            FileError::ResolutionFailed { path, specifier, detail } => {
                let mut s = String::from_str("Resolution failed for specifier '");
                s.append(specifier);
                s.append("' in '");
                s.append(path);
                s.append("': ");
                s.append(detail);
                s
            },
            FileError::RustPanic { path, stage, message } => {
                let mut s = String::from_str("Rust panic while processing '");
                s.append(path);
                s.append("' at stage ");
                s.append(stage.name());
                s.append(": ");
                s.append(message);
                s
            },
        }
    }

    /// The text shown for the error: in words for developers, as a code for
    /// everyone else.
    pub fn render_message(&self, profile: ErrorProfile) -> (s: String)
        ensures
            s@ == rendered(self@, profile),
    {
        match profile {
            ErrorProfile::Dev => self.to_string(),
            ErrorProfile::Prod => match self {
                FileError::InvalidUtf8 { .. } => String::from_str("file_encoding_error"),
                FileError::ParsePanicked { .. } => String::from_str("parse_failed"),
                FileError::SemanticBuildFailed { .. } => String::from_str(
                    "semantic_analysis_failed",
                ),
                FileError::CfgUnavailable { .. } => String::from_str("cfg_unavailable"),
                FileError::ResolutionFailed { .. } => String::from_str("import_resolution_failed"),
                FileError::RustPanic { stage, .. } => String::from_str("internal_error_at_").concat(
                    stage.as_str(),
                ),
            },
        }
    }
}

/// The code of an error depends on the kind of error and on the stage
/// alone: two files that fail in the same way are told apart by nothing in
/// it, so it gives away neither paths nor details.
pub proof fn law_codes_hide_paths_and_details(a: FileErrorView, b: FileErrorView)
    requires
        match (a, b) {
            (FileErrorView::InvalidUtf8 { .. }, FileErrorView::InvalidUtf8 { .. }) => true,
            (FileErrorView::ParsePanicked { .. }, FileErrorView::ParsePanicked { .. }) => true,
            (
                FileErrorView::SemanticBuildFailed { .. },
                FileErrorView::SemanticBuildFailed { .. },
            ) => true,
            (FileErrorView::CfgUnavailable { .. }, FileErrorView::CfgUnavailable { .. }) => true,
            (
                FileErrorView::ResolutionFailed { .. },
                FileErrorView::ResolutionFailed { .. },
            ) => true,
            (
                FileErrorView::RustPanic { stage: s, .. },
                FileErrorView::RustPanic { stage: t, .. },
            ) => s == t,
            _ => false,
        },
    ensures
        rendered(a, ErrorProfile::Prod) == rendered(b, ErrorProfile::Prod),
{
}

/// What a panic carried with it.
pub enum PanicPayload {
    /// A string literal.
    Literal(&'static str),
    /// A string made at run time.
    Owned(String),
    /// Something that is no string.
    Other,
}

/// The text of a panic.
pub open spec fn payload_text(payload: PanicPayload) -> Seq<char> {
    match payload {
        PanicPayload::Literal(s) => s@,
        PanicPayload::Owned(s) => s@,
        PanicPayload::Other => "non-string panic payload (unknown cause)"@,
    }
}

/// The text of a panic.
pub fn panic_message(payload: &PanicPayload) -> (s: String)
    ensures
        s@ == payload_text(*payload),
{
    match payload {
        PanicPayload::Literal(s) => String::from_str(s),
        PanicPayload::Owned(s) => s.clone(),
        PanicPayload::Other => String::from_str("non-string panic payload (unknown cause)"),
    }
}

/// An error of the graph layout simulation.
#[derive(Debug)]
pub enum PhysicsError {
    EmptyGraph,
    BufferSizeMismatch { expected: usize, actual: usize },
    NodeIndexOutOfBounds { index: usize, node_count: usize },
    TickPanic { tick_number: u64, message: String },
}

/// A `PhysicsError` in words.
pub open spec fn physics_message(error: PhysicsError) -> Seq<char> {
    match error {
        PhysicsError::EmptyGraph => "Cannot initialize physics: graph has 0 nodes"@,
        PhysicsError::BufferSizeMismatch { expected, actual } =>
            "Position/velocity buffer length mismatch: expected "@ + text::decimal(expected as nat)
            + ", got "@ + text::decimal(actual as nat),
        PhysicsError::NodeIndexOutOfBounds { index, node_count } => "Node index "@ + text::decimal(
            index as nat,
        ) + " out of bounds (graph has "@ + text::decimal(node_count as nat) + " nodes)"@,
        PhysicsError::TickPanic { tick_number, message } =>
            "Physics simulation panicked during tick "@ + text::decimal(tick_number as nat) + ": "@
            + message@,
    }
}

impl PhysicsError {
    /// The error in words.
    pub fn to_string(&self) -> (s: String)
        ensures
            s@ == physics_message(*self),
    {
        match self {
            PhysicsError::EmptyGraph => String::from_str(
                "Cannot initialize physics: graph has 0 nodes",
            ),
            PhysicsError::BufferSizeMismatch { expected, actual } => {
                let mut s = String::from_str(
                    "Position/velocity buffer length mismatch: expected ",
                );
                append_decimal(&mut s, *expected as u64);
                s.append(", got ");
                append_decimal(&mut s, *actual as u64);
                s
            },
            PhysicsError::NodeIndexOutOfBounds { index, node_count } => {
                let mut s = String::from_str("Node index ");
                append_decimal(&mut s, *index as u64);
                s.append(" out of bounds (graph has ");
                append_decimal(&mut s, *node_count as u64);
                s.append(" nodes)");
                s
            },
            PhysicsError::TickPanic { tick_number, message } => {
                let mut s = String::from_str("Physics simulation panicked during tick ");
                append_decimal(&mut s, *tick_number);
                s.append(": ");
                s.append(message);
                s
            },
        }
    }
}

/// The words for each error of a run, with what it is about.
pub proof fn law_errors_of_a_run_in_words(path: Seq<char>, detail: Seq<char>)
    ensures
        engine_message(EngineErrorView::InvalidZipHeader { detail }) == "Not a valid ZIP file: "@
            + detail,
        engine_message(EngineErrorView::ZipCorrupted { reason: detail })
            == "ZIP archive is corrupted or not a valid ZIP: "@ + detail,
        engine_message(EngineErrorView::Io { path, detail }) == "Failed to read '"@ + path
            + "' from local filesystem: "@ + detail,
        engine_message(EngineErrorView::NoParseableFiles)
            == "No parseable files (.js/.jsx/.ts/.tsx/.mjs/.cjs/.mts/.cts) found in the archive"@,
        engine_message(EngineErrorView::AbortedOnPanic { file: path, message: detail })
            == "A file caused a Rust panic during processing (dev profile is fail-closed): "@ + path
            + ": "@ + detail,
{
}

/// The words for each error of a file, for developers: with its path and with
/// what was found out.
pub proof fn law_errors_of_a_file_in_words(
    path: Seq<char>,
    detail: Seq<char>,
    specifier: Seq<char>,
)
    ensures
        rendered(FileErrorView::InvalidUtf8 { path }, ErrorProfile::Dev) == "'"@ + path
            + "' is not valid UTF-8"@,
        rendered(FileErrorView::ParsePanicked { path }, ErrorProfile::Dev) == "Parser panicked on '"@
            + path + "' (unrecoverable syntax errors)"@,
        rendered(FileErrorView::SemanticBuildFailed { path, detail }, ErrorProfile::Dev)
            == "Semantic analysis failed for '"@ + path + "': "@ + detail,
        rendered(FileErrorView::CfgUnavailable { path, detail }, ErrorProfile::Dev)
            == "CFG unavailable for '"@ + path + "': "@ + detail,
        rendered(FileErrorView::ResolutionFailed { path, specifier, detail }, ErrorProfile::Dev)
            == "Resolution failed for specifier '"@ + specifier + "' in '"@ + path + "': "@ + detail,
        rendered(
            FileErrorView::RustPanic { path, stage: Stage::Parse, message: detail },
            ErrorProfile::Dev,
        ) == "Rust panic while processing '"@ + path + "' at stage "@ + "Parse"@ + ": "@ + detail,
        rendered(
            FileErrorView::RustPanic { path, stage: Stage::Semantic, message: detail },
            ErrorProfile::Dev,
        ) == "Rust panic while processing '"@ + path + "' at stage "@ + "Semantic"@ + ": "@ + detail,
        rendered(
            FileErrorView::RustPanic { path, stage: Stage::Cfg, message: detail },
            ErrorProfile::Dev,
        ) == "Rust panic while processing '"@ + path + "' at stage "@ + "Cfg"@ + ": "@ + detail,
        rendered(
            FileErrorView::RustPanic { path, stage: Stage::Resolve, message: detail },
            ErrorProfile::Dev,
        ) == "Rust panic while processing '"@ + path + "' at stage "@ + "Resolve"@ + ": "@ + detail,
{
}

/// The code for each error of a file, in production.
pub proof fn law_codes_of_errors(path: Seq<char>, detail: Seq<char>, specifier: Seq<char>)
    ensures
        rendered(FileErrorView::InvalidUtf8 { path }, ErrorProfile::Prod) == "file_encoding_error"@,
        rendered(FileErrorView::ParsePanicked { path }, ErrorProfile::Prod) == "parse_failed"@,
        rendered(FileErrorView::SemanticBuildFailed { path, detail }, ErrorProfile::Prod)
            == "semantic_analysis_failed"@,
        rendered(FileErrorView::CfgUnavailable { path, detail }, ErrorProfile::Prod)
            == "cfg_unavailable"@,
        rendered(FileErrorView::ResolutionFailed { path, specifier, detail }, ErrorProfile::Prod)
            == "import_resolution_failed"@,
        rendered(
            FileErrorView::RustPanic { path, stage: Stage::Parse, message: detail },
            ErrorProfile::Prod,
        ) == "internal_error_at_"@ + "parse"@,
        rendered(
            FileErrorView::RustPanic { path, stage: Stage::Semantic, message: detail },
            ErrorProfile::Prod,
        ) == "internal_error_at_"@ + "semantic"@,
        rendered(
            FileErrorView::RustPanic { path, stage: Stage::Cfg, message: detail },
            ErrorProfile::Prod,
        ) == "internal_error_at_"@ + "cfg"@,
        rendered(
            FileErrorView::RustPanic { path, stage: Stage::Resolve, message: detail },
            ErrorProfile::Prod,
        ) == "internal_error_at_"@ + "resolve"@,
{
}

/// An error of a file names the file, and its words hold the path.
pub proof fn law_errors_name_their_file(error: FileErrorView, path: Seq<char>)
    requires
        match error {
            FileErrorView::InvalidUtf8 { path: own } => own == path,
            FileErrorView::ParsePanicked { path: own } => own == path,
            FileErrorView::SemanticBuildFailed { path: own, .. } => own == path,
            FileErrorView::CfgUnavailable { path: own, .. } => own == path,
            FileErrorView::ResolutionFailed { path: own, .. } => own == path,
            FileErrorView::RustPanic { path: own, .. } => own == path,
        },
    ensures
        error_path(error) == path,
        text::has_infix(file_message(error), path),
{
    let words = file_message(error);
    text::law_infixes_stand_between(words, path);
    match error {
        FileErrorView::InvalidUtf8 { .. } => {
            assert(words =~= "'"@ + path + "' is not valid UTF-8"@);
        },
        FileErrorView::ParsePanicked { .. } => {
            assert(words =~= "Parser panicked on '"@ + path + "' (unrecoverable syntax errors)"@);
        },
        FileErrorView::SemanticBuildFailed { detail, .. } => {
            assert(words =~= "Semantic analysis failed for '"@ + path + ("': "@ + detail));
        },
        FileErrorView::CfgUnavailable { detail, .. } => {
            assert(words =~= "CFG unavailable for '"@ + path + ("': "@ + detail));
        },
        FileErrorView::ResolutionFailed { specifier, detail, .. } => {
            assert(words =~= ("Resolution failed for specifier '"@ + specifier + "' in '"@) + path
                + ("': "@ + detail));
        },
        FileErrorView::RustPanic { stage, message, .. } => {
            assert(words =~= "Rust panic while processing '"@ + path + ("' at stage "@ + stage_name(
                stage,
            ) + ": "@ + message));
        },
    }
}

/// What a panic says is kept where it is text.
pub proof fn law_panics_say_what_they_say(literal: &'static str, owned: String)
    ensures
        payload_text(PanicPayload::Literal(literal)) == literal@,
        payload_text(PanicPayload::Owned(owned)) == owned@,
        payload_text(PanicPayload::Other) == "non-string panic payload (unknown cause)"@,
{
}

/// The words for each error of the layout, with its numbers.
pub proof fn law_errors_of_the_layout_in_words(a: usize, b: usize, tick: u64, message: String)
    ensures
        physics_message(PhysicsError::EmptyGraph) == "Cannot initialize physics: graph has 0 nodes"@,
        physics_message(PhysicsError::BufferSizeMismatch { expected: a, actual: b })
            == "Position/velocity buffer length mismatch: expected "@ + text::decimal(a as nat)
            + ", got "@ + text::decimal(b as nat),
        physics_message(PhysicsError::NodeIndexOutOfBounds { index: a, node_count: b })
            == "Node index "@ + text::decimal(a as nat) + " out of bounds (graph has "@
            + text::decimal(b as nat) + " nodes)"@,
        physics_message(PhysicsError::TickPanic { tick_number: tick, message })
            == "Physics simulation panicked during tick "@ + text::decimal(tick as nat) + ": "@
            + message@,
{
}

} // verus!
