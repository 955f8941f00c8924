//! The first stage: does a file parse, and if not, how.
//!
//! Two things are told apart. A parser that meets syntax it cannot recover
//! from stops early and says so in its result. A file that cannot be read as
//! text never reaches the parser; it is a failure of the batch, which goes on
//! without it.
pub mod recorder;
pub mod source_type;
pub mod syntax;

use crate::engine::batch;
use crate::error::FileError;
use crate::error::FileErrorView;
use crate::text;
use crate::vfs::Vfs;
use crate::vfs::VfsView;
use recorder::ParsedText;
use recorder::ParsedTextView;
use source_type::SourceKind;
use vstd::prelude::*;

verus! {

/// What became of parsing one file.
#[derive(Debug, Clone, PartialEq)]
pub struct ParseOutcome {
    pub path: String,
    /// Whether the parser met syntax that it could not recover from.
    pub panicked: bool,
    pub diagnostic_count: usize,
    pub is_typescript: bool,
    pub is_jsx: bool,
}

/// A `ParseOutcome` by its characters.
pub struct ParseOutcomeView {
    pub path: Seq<char>,
    pub panicked: bool,
    pub diagnostic_count: usize,
    pub is_typescript: bool,
    pub is_jsx: bool,
}

impl View for ParseOutcome {
    type V = ParseOutcomeView;

    open spec fn view(&self) -> ParseOutcomeView {
        ParseOutcomeView {
            path: self.path@,
            panicked: self.panicked,
            diagnostic_count: self.diagnostic_count,
            is_typescript: self.is_typescript,
            is_jsx: self.is_jsx,
        }
    }
}

impl ParseOutcome {
    /// Whether anything was wrong with the file.
    pub fn has_parse_errors(&self) -> (r: bool)
        ensures
            r == (self.panicked || self.diagnostic_count > 0),
    {
        self.panicked || self.diagnostic_count > 0
    }
}

/// What became of a file at `path`, read as `kind`, of which the parser said
/// `parsed`.
pub open spec fn outcome(
    path: Seq<char>,
    kind: SourceKind,
    parsed: ParsedTextView,
) -> ParseOutcomeView {
    ParseOutcomeView {
        path,
        panicked: parsed.panicked,
        diagnostic_count: parsed.diagnostic_count,
        is_typescript: kind.typescript(),
        is_jsx: kind.jsx(),
    }
}

/// What became of a file at `path`, read as `kind`, of which the parser said
/// `parsed`.
pub fn summarize(path: &str, kind: SourceKind, parsed: &ParsedText) -> (r: ParseOutcome)
    ensures
        r@ == outcome(path@, kind, parsed@),
{
    ParseOutcome {
        path: path.to_string(),
        panicked: parsed.panicked,
        diagnostic_count: parsed.diagnostic_count,
        is_typescript: kind.is_typescript(),
        is_jsx: kind.is_jsx(),
    }
}

/// What becomes of the file at `path`. A file that is not there, or is no
/// text, has nothing to parse.
pub open spec fn file_outcome(vfs: VfsView, path: Seq<char>) -> Result<
    ParseOutcomeView,
    FileErrorView,
> {
    match vfs.text_of(path) {
        None => Err(FileErrorView::InvalidUtf8 { path }),
        Some(source) => {
            let kind = source_type::source_kind(path);
            Ok(outcome(path, kind, recorder::parsed_text(source, kind)))
        },
    }
}

/// A result by its characters.
pub open spec fn outcome_result(result: Result<ParseOutcome, FileError>) -> Result<
    ParseOutcomeView,
    FileErrorView,
> {
    match result {
        Ok(value) => Ok(value@),
        Err(error) => Err(error@),
    }
}

/// Parses the file at `path`.
pub fn parse_file(vfs: &Vfs, path: &str) -> (result: Result<ParseOutcome, FileError>)
    ensures
        outcome_result(result) == file_outcome(vfs@, path@),
{
    match vfs.read_utf8(path) {
        None => Err(FileError::InvalidUtf8 { path: path.to_string() }),
        Some(source) => {
            let kind = source_type::resolve_source_type(path);
            let parsed = recorder::parse_text(source, kind);
            Ok(summarize(path, kind, &parsed))
        },
    }
}

/// What became of many files.
#[derive(Debug)]
pub struct ParseBatch {
    pub outcomes: Vec<ParseOutcome>,
    pub failures: Vec<FileError>,
}

/// Outcomes by their characters.
pub open spec fn outcomes_view(outcomes: Seq<ParseOutcome>) -> Seq<ParseOutcomeView> {
    outcomes.map_values(|o: ParseOutcome| o@)
}

impl ParseBatch {
    /// Whether the batch holds `results`.
    pub open spec fn holds(&self, results: Seq<Result<ParseOutcomeView, FileErrorView>>) -> bool {
        &&& outcomes_view(self.outcomes@) == batch::successes(results)
        &&& batch::errors_view(self.failures@) == batch::failures(results)
    }

    /// An empty batch.
    pub fn new() -> (b: Self)
        ensures
            b.holds(Seq::empty()),
    {
        let b = ParseBatch { outcomes: Vec::new(), failures: Vec::new() };
        assert(outcomes_view(b.outcomes@) =~= Seq::empty());
        assert(batch::errors_view(b.failures@) =~= Seq::empty());
        b
    }

    /// Adds the result of one more file.
    pub fn record(&mut self, result: Result<ParseOutcome, FileError>)
        ensures
            forall|results: Seq<Result<ParseOutcomeView, FileErrorView>>| #[trigger]
                old(self).holds(results) ==> final(self).holds(
                    results.push(outcome_result(result)),
                ),
    {
        let ghost added = outcome_result(result);
        match result {
            Ok(value) => self.outcomes.push(value),
            Err(error) => self.failures.push(error),
        }
        proof {
            assert forall|results: Seq<Result<ParseOutcomeView, FileErrorView>>| #[trigger]
                old(self).holds(results) implies self.holds(results.push(added)) by {
                assert(results.push(added).drop_last() =~= results);
                assert(outcomes_view(self.outcomes@) =~= batch::successes(results.push(added)));
                assert(batch::errors_view(self.failures@) =~= batch::failures(results.push(added)));
            }
        }
    }
}

impl Default for ParseBatch {
    fn default() -> (b: Self)
        ensures
            b.holds(Seq::empty()),
    {
        ParseBatch::new()
    }
}

/// Parses the files at `paths`. A file that fails is recorded, and the batch
/// goes on.
pub fn parse_all(vfs: &Vfs, paths: &[&str]) -> (b: ParseBatch)
    ensures
        b.holds(text::str_views(paths@).map_values(|p: Seq<char>| file_outcome(vfs@, p))),
{
    let ghost results = text::str_views(paths@).map_values(|p: Seq<char>| file_outcome(vfs@, p));
    let mut b = ParseBatch::new();
    for i in 0..paths.len()
        invariant
            results == text::str_views(paths@).map_values(
                |p: Seq<char>| file_outcome(vfs@, p),
            ),
            b.holds(results.take(i as int)),
    {
        let result = parse_file(vfs, paths[i]);
        assert(results.take(i + 1) =~= results.take(i as int).push(outcome_result(result)));
        b.record(result);
    }
    assert(results.take(paths@.len() as int) =~= results);
    b
}

/// A file is parsed exactly if it is there and is text; then its own path, what
/// the parser said, and its language are told.
pub proof fn law_text_is_parsed(vfs: VfsView, path: Seq<char>)
    ensures
        file_outcome(vfs, path) is Ok <==> vfs.text_of(path) is Some,
        vfs.text_of(path) is None ==> file_outcome(vfs, path) == Err::<ParseOutcomeView, _>(
            FileErrorView::InvalidUtf8 { path },
        ),
        vfs.text_of(path) matches Some(source) ==> {
            let kind = source_type::source_kind(path);
            let said = recorder::parsed_text(source, kind);
            let told = file_outcome(vfs, path)->Ok_0;
            &&& told.path == path
            &&& told.panicked == said.panicked
            &&& told.diagnostic_count == said.diagnostic_count
            &&& told.is_typescript == (kind.language != source_type::Language::JavaScript)
            &&& told.is_jsx == (kind.variant == source_type::LanguageVariant::Jsx)
        },
{
}

/// A batch has what became of its files, one after another, and their failures.
pub proof fn law_batches_of_outcomes(
    b: ParseBatch,
    results: Seq<Result<ParseOutcomeView, FileErrorView>>,
)
    requires
        b.holds(results),
    ensures
        outcomes_view(b.outcomes@) == batch::successes(results),
        batch::errors_view(b.failures@) == batch::failures(results),
        b.outcomes@.len() + b.failures@.len() == results.len(),
{
    batch::law_every_file_is_accounted_for(results);
    assert(outcomes_view(b.outcomes@).len() == b.outcomes@.len());
    assert(batch::errors_view(b.failures@).len() == b.failures@.len());
}

} // verus!
