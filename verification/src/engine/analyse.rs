//! Parse health and symbols of a file in one go.
use crate::engine::batch;
use crate::engine::cfg::flow_graph;
use crate::engine::parse;
use crate::engine::parse::recorder;
use crate::engine::parse::source_type;
use crate::engine::parse::syntax;
use crate::engine::parse::ParseOutcome;
use crate::engine::parse::ParseOutcomeView;
use crate::engine::semantic;
use crate::engine::semantic::symbol_classify;
use crate::engine::semantic::symbol_classify::Symbol;
use crate::engine::semantic::symbol_classify::SymbolView;
use crate::error::FileError;
use crate::error::FileErrorView;
use crate::text;
use crate::vfs::Vfs;
use crate::vfs::VfsView;
use vstd::prelude::*;

verus! {

/// What is said of one file.
#[derive(Debug, Clone)]
pub struct FileAnalysis {
    pub parse: ParseOutcome,
    pub symbols: Vec<Symbol>,
    pub cfg_available: bool,
}

/// A `FileAnalysis` by its characters.
pub struct FileAnalysisView {
    pub parse: ParseOutcomeView,
    pub symbols: Seq<SymbolView>,
    pub cfg_available: bool,
}

impl View for FileAnalysis {
    type V = FileAnalysisView;

    open spec fn view(&self) -> FileAnalysisView {
        FileAnalysisView {
            parse: self.parse@,
            symbols: symbol_classify::symbols_view(self.symbols@),
            cfg_available: self.cfg_available,
        }
    }
}

/// What is said of the file at `path`.
pub open spec fn file_analysis(vfs: VfsView, path: Seq<char>) -> Result<
    FileAnalysisView,
    FileErrorView,
> {
    match vfs.text_of(path) {
        None => Err(FileErrorView::InvalidUtf8 { path }),
        Some(source) => {
            let kind = source_type::source_kind(path);
            let parsed = recorder::parsed_text(source, kind);
            Ok(
                FileAnalysisView {
                    parse: parse::outcome(path, kind, parsed),
                    symbols: symbol_classify::program_symbols(
                        path,
                        syntax::program_of(parsed.events),
                    ),
                    cfg_available: flow_graph::flow_graph(source, kind) is Some,
                },
            )
        },
    }
}

/// A result by its characters.
pub open spec fn analysis_result(result: Result<FileAnalysis, FileError>) -> Result<
    FileAnalysisView,
    FileErrorView,
> {
    match result {
        Ok(value) => Ok(value@),
        Err(error) => Err(error@),
    }
}

/// Parses the file at `path` once and tells both how that went and which
/// symbols it declares.
pub fn analyze_file(vfs: &Vfs, path: &str) -> (result: Result<FileAnalysis, FileError>)
    ensures
        analysis_result(result) == file_analysis(vfs@, path@),
{
    match vfs.read_utf8(path) {
        None => Err(FileError::InvalidUtf8 { path: path.to_string() }),
        Some(source) => {
            let kind = source_type::resolve_source_type(path);
            let parsed = recorder::parse_text(source, kind);
            let parse = parse::summarize(path, kind, &parsed);
            let program = syntax::assemble_program(parsed.events);
            let symbols = symbol_classify::extract_symbols(&program, path);
            let cfg_available = flow_graph::has_flow_graph(source, kind);
            Ok(FileAnalysis { parse, symbols, cfg_available })
        },
    }
}

/// What is said of many files.
#[derive(Debug)]
pub struct AnalysisBatch {
    pub files: Vec<FileAnalysis>,
    pub failures: Vec<FileError>,
}

/// Analyses by their characters.
pub open spec fn analyses_view(files: Seq<FileAnalysis>) -> Seq<FileAnalysisView> {
    files.map_values(|f: FileAnalysis| f@)
}

impl AnalysisBatch {
    /// Whether the batch holds `results`.
    pub open spec fn holds(&self, results: Seq<Result<FileAnalysisView, FileErrorView>>) -> bool {
        &&& analyses_view(self.files@) == batch::successes(results)
        &&& batch::errors_view(self.failures@) == batch::failures(results)
    }

    /// An empty batch.
    pub fn new() -> (b: Self)
        ensures
            b.holds(Seq::empty()),
    {
        let b = AnalysisBatch { files: Vec::new(), failures: Vec::new() };
        assert(analyses_view(b.files@) =~= Seq::empty());
        assert(batch::errors_view(b.failures@) =~= Seq::empty());
        b
    }

    /// Adds the result of one more file.
    pub fn record(&mut self, result: Result<FileAnalysis, FileError>)
        ensures
            forall|results: Seq<Result<FileAnalysisView, FileErrorView>>| #[trigger]
                old(self).holds(results) ==> final(self).holds(
                    results.push(analysis_result(result)),
                ),
    {
        let ghost added = analysis_result(result);
        match result {
            Ok(value) => self.files.push(value),
            Err(error) => self.failures.push(error),
        }
        proof {
            assert forall|results: Seq<Result<FileAnalysisView, FileErrorView>>| #[trigger]
                old(self).holds(results) implies self.holds(results.push(added)) by {
                let more = results.push(added);
                assert(more.drop_last() =~= results);
                assert(analyses_view(self.files@) =~= batch::successes(more));
                assert(batch::errors_view(self.failures@) =~= batch::failures(more));
            }
        }
    }
}

impl Default for AnalysisBatch {
    fn default() -> (b: Self)
        ensures
            b.holds(Seq::empty()),
    {
        AnalysisBatch::new()
    }
}

/// Parse health and symbols of the files at `paths`.
pub fn analyze_all(vfs: &Vfs, paths: &[&str]) -> (b: AnalysisBatch)
    ensures
        b.holds(text::str_views(paths@).map_values(|p: Seq<char>| file_analysis(vfs@, p))),
{
    let ghost results = text::str_views(paths@).map_values(|p: Seq<char>| file_analysis(vfs@, p));
    let mut b = AnalysisBatch::new();
    for i in 0..paths.len()
        invariant
            results == text::str_views(paths@).map_values(
                |p: Seq<char>| file_analysis(vfs@, p),
            ),
            b.holds(results.take(i as int)),
    {
        let result = analyze_file(vfs, paths[i]);
        assert(results.take(i + 1) =~= results.take(i as int).push(analysis_result(result)));
        b.record(result);
    }
    assert(results.take(paths@.len() as int) =~= results);
    b
}

/// Going through a file once tells the same as going through it once for
/// its parse health and once for its symbols.
pub proof fn law_one_pass_agrees_with_two(vfs: VfsView, path: Seq<char>)
    ensures
        match file_analysis(vfs, path) {
            Ok(analysis) => {
                &&& parse::file_outcome(vfs, path) == Ok::<ParseOutcomeView, FileErrorView>(
                    analysis.parse,
                )
                &&& semantic::file_semantics(vfs, path) matches Ok(found)
                &&& found.symbols == analysis.symbols
                &&& found.cfg_available == analysis.cfg_available
            },
            Err(error) => {
                &&& parse::file_outcome(vfs, path) == Err::<ParseOutcomeView, FileErrorView>(error)
                &&& semantic::file_semantics(vfs, path) == Err::<
                    semantic::FileSemanticView,
                    FileErrorView,
                >(error)
            },
        },
{
}

/// A batch has what is said of its files, one after another, and their failures.
pub proof fn law_batches_of_analyses(
    b: AnalysisBatch,
    results: Seq<Result<FileAnalysisView, FileErrorView>>,
)
    requires
        b.holds(results),
    ensures
        analyses_view(b.files@) == batch::successes(results),
        batch::errors_view(b.failures@) == batch::failures(results),
        b.files@.len() + b.failures@.len() == results.len(),
{
    batch::law_every_file_is_accounted_for(results);
    assert(analyses_view(b.files@).len() == b.files@.len());
    assert(batch::errors_view(b.failures@).len() == b.failures@.len());
}

} // verus!
