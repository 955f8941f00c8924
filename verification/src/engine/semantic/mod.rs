//! The second stage: which symbols a file declares, and whether a control
//! flow graph can be built of it.
//!
//! A file that the parser gave up on is not turned away: whatever was parsed
//! before the error is walked.
pub mod scope_path;
pub mod symbol_classify;

use crate::engine::batch;
use crate::engine::cfg::flow_graph;
use crate::engine::parse::recorder;
use crate::engine::parse::source_type;
use crate::error::FileError;
use crate::error::FileErrorView;
use crate::text;
use crate::vfs::Vfs;
use crate::vfs::VfsView;
use symbol_classify::Symbol;
use symbol_classify::SymbolView;
use vstd::prelude::*;

verus! {

/// What the stage says of one file.
#[derive(Debug, Clone)]
pub struct FileSemanticResult {
    pub symbols: Vec<Symbol>,
    pub cfg_available: bool,
}

/// A `FileSemanticResult` by its characters.
pub struct FileSemanticView {
    pub symbols: Seq<SymbolView>,
    pub cfg_available: bool,
}

impl View for FileSemanticResult {
    type V = FileSemanticView;

    open spec fn view(&self) -> FileSemanticView {
        FileSemanticView {
            symbols: symbol_classify::symbols_view(self.symbols@),
            cfg_available: self.cfg_available,
        }
    }
}

/// A result by its characters.
pub open spec fn semantic_result(result: Result<FileSemanticResult, FileError>) -> Result<
    FileSemanticView,
    FileErrorView,
> {
    match result {
        Ok(value) => Ok(value@),
        Err(error) => Err(error@),
    }
}

/// What the stage says of the file at `path`. A file that is not there, or
/// is no text, has no symbols to tell of.
pub open spec fn file_semantics(vfs: VfsView, path: Seq<char>) -> Result<
    FileSemanticView,
    FileErrorView,
> {
    match vfs.text_of(path) {
        None => Err(FileErrorView::InvalidUtf8 { path }),
        Some(source) => {
            let kind = source_type::source_kind(path);
            Ok(
                FileSemanticView {
                    symbols: symbol_classify::program_symbols(
                        path,
                        recorder::parsed_program(source, kind),
                    ),
                    cfg_available: flow_graph::flow_graph(source, kind) is Some,
                },
            )
        },
    }
}

/// The symbols of the file at `path`.
pub fn extract_symbols(vfs: &Vfs, path: &str) -> (result: Result<FileSemanticResult, FileError>)
    ensures
        semantic_result(result) == file_semantics(vfs@, path@),
{
    match vfs.read_utf8(path) {
        None => Err(FileError::InvalidUtf8 { path: path.to_string() }),
        Some(source) => {
            let kind = source_type::resolve_source_type(path);
            let program = recorder::parse_program(source, kind);
            let symbols = symbol_classify::extract_symbols(&program, path);
            let cfg_available = flow_graph::has_flow_graph(source, kind);
            Ok(FileSemanticResult { symbols, cfg_available })
        },
    }
}

/// What the stage says of many files.
#[derive(Debug)]
pub struct SemanticBatch {
    pub symbols: Vec<Symbol>,
    /// The files of which no control flow graph can be built.
    pub cfg_unavailable: Vec<String>,
    pub failures: Vec<FileError>,
}

/// A file and what the stage says of it.
pub struct SemanticRun {
    pub path: Seq<char>,
    pub result: Result<FileSemanticView, FileErrorView>,
}

/// The symbols of all files, file by file.
pub open spec fn all_symbols(runs: Seq<SemanticRun>) -> Seq<SymbolView>
    decreases runs.len(),
{
    if runs.len() == 0 {
        Seq::empty()
    } else {
        match runs.last().result {
            Ok(found) => all_symbols(runs.drop_last()) + found.symbols,
            Err(_) => all_symbols(runs.drop_last()),
        }
    }
}

/// The files of which no control flow graph can be built.
pub open spec fn without_graph(runs: Seq<SemanticRun>) -> Seq<Seq<char>>
    decreases runs.len(),
{
    if runs.len() == 0 {
        Seq::empty()
    } else {
        match runs.last().result {
            Ok(found) => if found.cfg_available {
                without_graph(runs.drop_last())
            } else {
                without_graph(runs.drop_last()).push(runs.last().path)
            },
            Err(_) => without_graph(runs.drop_last()),
        }
    }
}

/// The errors of the files that failed.
pub open spec fn failed(runs: Seq<SemanticRun>) -> Seq<FileErrorView>
    decreases runs.len(),
{
    if runs.len() == 0 {
        Seq::empty()
    } else {
        match runs.last().result {
            Ok(_) => failed(runs.drop_last()),
            Err(error) => failed(runs.drop_last()).push(error),
        }
    }
}

/// What the stage says of the files at `paths`.
pub open spec fn semantic_runs(vfs: VfsView, paths: Seq<Seq<char>>) -> Seq<SemanticRun> {
    paths.map_values(|p: Seq<char>| SemanticRun { path: p, result: file_semantics(vfs, p) })
}

impl SemanticBatch {
    /// Whether the batch holds what the stage said of the files of `runs`.
    pub open spec fn holds(&self, runs: Seq<SemanticRun>) -> bool {
        &&& symbol_classify::symbols_view(self.symbols@) == all_symbols(runs)
        &&& text::views(self.cfg_unavailable@) == without_graph(runs)
        &&& batch::errors_view(self.failures@) == failed(runs)
    }

    /// An empty batch.
    pub fn new() -> (b: Self)
        ensures
            b.holds(Seq::empty()),
    {
        let b = SemanticBatch {
            symbols: Vec::new(),
            cfg_unavailable: Vec::new(),
            failures: Vec::new(),
        };
        assert(symbol_classify::symbols_view(b.symbols@) =~= Seq::empty());
        assert(text::views(b.cfg_unavailable@) =~= Seq::empty());
        assert(batch::errors_view(b.failures@) =~= Seq::empty());
        b
    }

    /// Adds what the stage says of the file at `path`.
    pub fn record(&mut self, path: &str, result: Result<FileSemanticResult, FileError>)
        ensures
            forall|runs: Seq<SemanticRun>| #[trigger]
                old(self).holds(runs) ==> final(self).holds(
                    runs.push(SemanticRun { path: path@, result: semantic_result(result) }),
                ),
    {
        let ghost added = SemanticRun { path: path@, result: semantic_result(result) };
        match result {
            Ok(found) => {
                let mut symbols = found.symbols;
                self.symbols.append(&mut symbols);
                if !found.cfg_available {
                    self.cfg_unavailable.push(path.to_string());
                }
            },
            Err(error) => self.failures.push(error),
        }
        proof {
            assert forall|runs: Seq<SemanticRun>| #[trigger] old(self).holds(runs) implies self.holds(
                runs.push(added),
            ) by {
                let more = runs.push(added);
                assert(more.drop_last() =~= runs);
                assert(symbol_classify::symbols_view(self.symbols@) =~= all_symbols(more));
                assert(text::views(self.cfg_unavailable@) =~= without_graph(more));
                assert(batch::errors_view(self.failures@) =~= failed(more));
            }
        }
    }
}

impl Default for SemanticBatch {
    fn default() -> (b: Self)
        ensures
            b.holds(Seq::empty()),
    {
        SemanticBatch::new()
    }
}

/// The symbols of the files at `paths`.
pub fn extract_all(vfs: &Vfs, paths: &[&str]) -> (b: SemanticBatch)
    ensures
        b.holds(semantic_runs(vfs@, text::str_views(paths@))),
{
    let ghost runs = semantic_runs(vfs@, text::str_views(paths@));
    let mut b = SemanticBatch::new();
    for i in 0..paths.len()
        invariant
            runs == semantic_runs(vfs@, text::str_views(paths@)),
            b.holds(runs.take(i as int)),
    {
        let result = extract_symbols(vfs, paths[i]);
        let ghost added = SemanticRun { path: paths@[i as int]@, result: semantic_result(result) };
        assert(runs.take(i + 1) =~= runs.take(i as int).push(added));
        b.record(paths[i], result);
    }
    assert(runs.take(paths@.len() as int) =~= runs);
    b
}

/// A file has symbols to tell of exactly if it is there and is text: those of
/// its program, and whether it has a control flow graph.
pub proof fn law_text_has_symbols(vfs: VfsView, path: Seq<char>)
    ensures
        file_semantics(vfs, path) is Ok <==> vfs.text_of(path) is Some,
        vfs.text_of(path) is None ==> file_semantics(vfs, path) == Err::<FileSemanticView, _>(
            FileErrorView::InvalidUtf8 { path },
        ),
        vfs.text_of(path) matches Some(source) ==> {
            let kind = source_type::source_kind(path);
            let told = file_semantics(vfs, path)->Ok_0;
            &&& told.symbols == symbol_classify::program_symbols(
                path,
                recorder::parsed_program(source, kind),
            )
            &&& told.cfg_available <==> flow_graph::flow_graph(source, kind) is Some
        },
{
}

/// The symbols of a batch are those of its files, one after another; a file
/// that fails is told once, among the failures, and one without a graph among
/// those.
pub proof fn law_symbols_stand_file_by_file(
    runs: Seq<SemanticRun>,
    path: Seq<char>,
    found: FileSemanticView,
    error: FileErrorView,
)
    ensures
        all_symbols(Seq::empty()).len() == 0,
        without_graph(Seq::empty()).len() == 0,
        failed(Seq::empty()).len() == 0,
        all_symbols(runs.push(SemanticRun { path, result: Ok(found) })) == all_symbols(runs)
            + found.symbols,
        failed(runs.push(SemanticRun { path, result: Ok(found) })) == failed(runs),
        found.cfg_available ==> without_graph(runs.push(SemanticRun { path, result: Ok(found) }))
            == without_graph(runs),
        !found.cfg_available ==> without_graph(runs.push(SemanticRun { path, result: Ok(found) }))
            == without_graph(runs).push(path),
        all_symbols(runs.push(SemanticRun { path, result: Err(error) })) == all_symbols(runs),
        failed(runs.push(SemanticRun { path, result: Err(error) })) == failed(runs).push(error),
        without_graph(runs.push(SemanticRun { path, result: Err(error) })) == without_graph(runs),
{
    assert(runs.push(SemanticRun { path, result: Ok(found) }).drop_last() =~= runs);
    assert(runs.push(SemanticRun { path, result: Err(error) }).drop_last() =~= runs);
}

/// Each file of a batch is run by its own path, and the batch has what they say
/// one after another.
pub proof fn law_batches_of_symbols(
    b: SemanticBatch,
    vfs: VfsView,
    paths: Seq<Seq<char>>,
    i: int,
)
    requires
        b.holds(semantic_runs(vfs, paths)),
    ensures
        semantic_runs(vfs, paths).len() == paths.len(),
        0 <= i < paths.len() ==> semantic_runs(vfs, paths)[i].path == paths[i] && semantic_runs(
            vfs,
            paths,
        )[i].result == file_semantics(vfs, paths[i]),
        symbol_classify::symbols_view(b.symbols@) == all_symbols(semantic_runs(vfs, paths)),
        text::views(b.cfg_unavailable@) == without_graph(semantic_runs(vfs, paths)),
        batch::errors_view(b.failures@) == failed(semantic_runs(vfs, paths)),
{
}

} // verus!
