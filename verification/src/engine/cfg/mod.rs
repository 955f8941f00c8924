//! The last stage: for every function and method, its complexity and the
//! blocks of its control flow.
pub mod complexity;
pub mod flow_graph;

use crate::engine::batch;
use crate::engine::parse::source_type;
use crate::engine::semantic::symbol_classify;
use crate::engine::semantic::symbol_classify::Symbol;
use crate::engine::semantic::symbol_classify::SymbolKind;
use crate::engine::semantic::symbol_classify::SymbolView;
use crate::error::FileError;
use crate::error::FileErrorView;
use crate::text;
use crate::vfs::Vfs;
use crate::vfs::VfsView;
use flow_graph::FlowBlockView;
use flow_graph::FlowEdge;
use flow_graph::FlowGraph;
use vstd::prelude::*;
use vstd::string::*;

verus! {

/// A block of the control flow of a function.
#[derive(Debug, Clone)]
pub struct CfgBlock {
    pub block_id: String,
    pub span_start: u32,
    pub span_end: u32,
    /// The ids of the blocks of the same function to which control may pass.
    pub next: Vec<String>,
    pub is_unreachable: bool,
}

/// A `CfgBlock` by its characters.
pub struct CfgBlockView {
    pub block_id: Seq<char>,
    pub span_start: u32,
    pub span_end: u32,
    pub next: Seq<Seq<char>>,
    pub is_unreachable: bool,
}

impl View for CfgBlock {
    type V = CfgBlockView;

    open spec fn view(&self) -> CfgBlockView {
        CfgBlockView {
            block_id: self.block_id@,
            span_start: self.span_start,
            span_end: self.span_end,
            next: text::views(self.next@),
            is_unreachable: self.is_unreachable,
        }
    }
}

/// Blocks by their characters.
pub open spec fn blocks_view(blocks: Seq<CfgBlock>) -> Seq<CfgBlockView> {
    blocks.map_values(|b: CfgBlock| b@)
}

/// The control flow of one function or method.
#[derive(Debug, Clone)]
pub struct FunctionCfgReport {
    pub symbol_id: String,
    pub name: String,
    pub cyclomatic_complexity: u32,
    pub blocks: Vec<CfgBlock>,
}

/// A `FunctionCfgReport` by its characters.
pub struct FunctionCfgReportView {
    pub symbol_id: Seq<char>,
    pub name: Seq<char>,
    pub cyclomatic_complexity: u32,
    pub blocks: Seq<CfgBlockView>,
}

impl View for FunctionCfgReport {
    type V = FunctionCfgReportView;

    open spec fn view(&self) -> FunctionCfgReportView {
        FunctionCfgReportView {
            symbol_id: self.symbol_id@,
            name: self.name@,
            cyclomatic_complexity: self.cyclomatic_complexity,
            blocks: blocks_view(self.blocks@),
        }
    }
}

/// Reports by their characters.
pub open spec fn reports_view(reports: Seq<FunctionCfgReport>) -> Seq<FunctionCfgReportView> {
    reports.map_values(|r: FunctionCfgReport| r@)
}

/// The id of block `i`.
pub open spec fn block_id(i: nat) -> Seq<char> {
    "block_"@ + text::decimal(i)
}

/// The ids of those of `successors` that start in the span.
pub open spec fn next_ids(
    graph: Seq<FlowBlockView>,
    span_start: u32,
    span_end: u32,
    successors: Seq<FlowEdge>,
) -> Seq<Seq<char>>
    decreases successors.len(),
{
    if successors.len() == 0 {
        Seq::empty()
    } else {
        let before = next_ids(graph, span_start, span_end, successors.drop_last());
        if complexity::is_member(graph, span_start, span_end, successors.last().target as int) {
            before.push(block_id(successors.last().target as nat))
        } else {
            before
        }
    }
}

/// Block `i` as it is reported.
pub open spec fn reported_block(
    graph: Seq<FlowBlockView>,
    span_start: u32,
    span_end: u32,
    i: int,
) -> CfgBlockView {
    let span = complexity::anchor(graph[i])->0;
    CfgBlockView {
        block_id: block_id(i as nat),
        span_start: span.0,
        span_end: span.1,
        next: next_ids(graph, span_start, span_end, graph[i].successors),
        is_unreachable: graph[i].is_unreachable,
    }
}

/// Those of the first `upto` blocks that start in the span, as they are
/// reported.
pub open spec fn reported_blocks(
    graph: Seq<FlowBlockView>,
    span_start: u32,
    span_end: u32,
    upto: nat,
) -> Seq<CfgBlockView>
    decreases upto,
{
    if upto == 0 {
        Seq::empty()
    } else {
        let before = reported_blocks(graph, span_start, span_end, (upto - 1) as nat);
        if complexity::is_member(graph, span_start, span_end, upto - 1) {
            before.push(reported_block(graph, span_start, span_end, upto - 1))
        } else {
            before
        }
    }
}

/// The blocks of the control flow of what lies in the span; none if the file
/// has no graph.
pub open spec fn span_blocks(
    graph: Option<Seq<FlowBlockView>>,
    span_start: u32,
    span_end: u32,
) -> Seq<CfgBlockView> {
    match graph {
        Some(graph) => reported_blocks(graph, span_start, span_end, graph.len()),
        None => Seq::empty(),
    }
}

/// What a graph that may be absent holds.
pub open spec fn graph_ref_view(graph: Option<&FlowGraph>) -> Option<Seq<FlowBlockView>> {
    match graph {
        Some(graph) => Some(graph@),
        None => None,
    }
}

fn make_block_id(i: usize) -> (id: String)
    ensures
        id@ == block_id(i as nat),
{
    let mut id = String::from_str("block_");
    text::append_decimal(&mut id, i as u64);
    id
}

/// The blocks of the control flow of what lies in the span.
pub fn build_cfg_blocks(graph: Option<&FlowGraph>, span_start: u32, span_end: u32) -> (blocks: Vec<
    CfgBlock,
>)
    ensures
        blocks_view(blocks@) == span_blocks(graph_ref_view(graph), span_start, span_end),
{
    let mut blocks: Vec<CfgBlock> = Vec::new();
    assert(blocks_view(blocks@) =~= Seq::empty());
    let graph = match graph {
        Some(graph) => graph,
        None => {
            return blocks;
        },
    };
    let ghost all = graph@;
    let inside = complexity::members(graph, span_start, span_end);
    for i in 0..graph.blocks.len()
        invariant
            all == graph@,
            all.len() == graph.blocks@.len(),
            inside@.len() == all.len(),
            forall|k: int|
                0 <= k < all.len() ==> #[trigger] inside@[k] == complexity::is_member(
                    all,
                    span_start,
                    span_end,
                    k,
                ),
            blocks_view(blocks@) == reported_blocks(all, span_start, span_end, i as nat),
    {
        let block = &graph.blocks[i];
        assert(all[i as int] == block@);
        if inside[i] {
            if let Some((start, end)) = complexity::block_anchor(block) {
                let mut next: Vec<String> = Vec::new();
                assert(text::views(next@) =~= Seq::empty());
                for j in 0..block.successors.len()
                    invariant
                        inside@.len() == all.len(),
                        forall|k: int|
                            0 <= k < all.len() ==> #[trigger] inside@[k] == complexity::is_member(
                                all,
                                span_start,
                                span_end,
                                k,
                            ),
                        text::views(next@) == next_ids(
                            all,
                            span_start,
                            span_end,
                            block.successors@.take(j as int),
                        ),
                {
                    let successor: usize = block.successors[j].target;
                    let ghost before = text::views(next@);
                    assert(block.successors@.take(j + 1).drop_last() =~= block.successors@.take(
                        j as int,
                    ));
                    if successor < inside.len() && inside[successor] {
                        next.push(make_block_id(successor));
                        assert(text::views(next@) =~= before.push(block_id(successor as nat)));
                    }
                }
                assert(block.successors@.take(block.successors@.len() as int)
                    =~= block.successors@);
                let ghost before = blocks_view(blocks@);
                let made = CfgBlock {
                    block_id: make_block_id(i),
                    span_start: start,
                    span_end: end,
                    next,
                    is_unreachable: block.is_unreachable,
                };
                let ghost shown = made@;
                blocks.push(made);
                assert(blocks_view(blocks@) =~= before.push(shown));
            }
        }
    }
    blocks
}

/// Whether a symbol of the file at `path` has control flow to report.
pub open spec fn is_reported(path: Seq<char>, symbol: SymbolView) -> bool {
    symbol.file == path && (symbol.kind == SymbolKind::Function || symbol.kind
        == SymbolKind::Method)
}

/// The report on a symbol.
pub open spec fn report(
    graph: Option<Seq<FlowBlockView>>,
    symbol: SymbolView,
) -> FunctionCfgReportView {
    FunctionCfgReportView {
        symbol_id: symbol.id,
        name: symbol.name,
        cyclomatic_complexity: complexity::span_complexity(
            graph,
            symbol.span_start,
            symbol.span_end,
        ) as u32,
        blocks: span_blocks(graph, symbol.span_start, symbol.span_end),
    }
}

/// The reports on the functions and methods of the file at `path` among
/// `symbols`, in their order.
pub open spec fn reports(
    graph: Option<Seq<FlowBlockView>>,
    path: Seq<char>,
    symbols: Seq<SymbolView>,
) -> Seq<FunctionCfgReportView>
    decreases symbols.len(),
{
    if symbols.len() == 0 {
        Seq::empty()
    } else {
        let before = reports(graph, path, symbols.drop_last());
        if is_reported(path, symbols.last()) {
            before.push(report(graph, symbols.last()))
        } else {
            before
        }
    }
}

/// The reports on the functions and methods of the file at `path` among
/// `symbols`, in a file with control flow graph `graph`.
pub fn report_symbols(graph: Option<&FlowGraph>, path: &str, symbols: &[Symbol]) -> (r: Vec<
    FunctionCfgReport,
>)
    requires
        graph matches Some(g) ==> flow_graph::edge_count(g@) <= u32::MAX,
    ensures
        reports_view(r@) == reports(
            graph_ref_view(graph),
            path@,
            symbol_classify::symbols_view(symbols@),
        ),
{
    let ghost all = symbol_classify::symbols_view(symbols@);
    let mut r: Vec<FunctionCfgReport> = Vec::new();
    assert(reports_view(r@) =~= Seq::empty());
    for i in 0..symbols.len()
        invariant
            graph matches Some(g) ==> flow_graph::edge_count(g@) <= u32::MAX,
            all == symbol_classify::symbols_view(symbols@),
            reports_view(r@) == reports(graph_ref_view(graph), path@, all.take(i as int)),
    {
        let symbol = &symbols[i];
        assert(all.take(i + 1).drop_last() =~= all.take(i as int));
        assert(all.take(i + 1).last() == symbol@);
        if text::same(&symbol.file, path) && (symbol.kind == SymbolKind::Function || symbol.kind
            == SymbolKind::Method) {
            let ghost before = reports_view(r@);
            let made = FunctionCfgReport {
                symbol_id: symbol.id.clone(),
                name: symbol.name.clone(),
                cyclomatic_complexity: complexity::complexity_for_span(
                    graph,
                    symbol.span_start,
                    symbol.span_end,
                ),
                blocks: build_cfg_blocks(graph, symbol.span_start, symbol.span_end),
            };
            let ghost shown = made@;
            r.push(made);
            assert(reports_view(r@) =~= before.push(shown));
        }
    }
    assert(all.take(symbols@.len() as int) =~= all);
    r
}

/// What the stage says of the file at `path`.
pub open spec fn file_reports(vfs: VfsView, path: Seq<char>, symbols: Seq<SymbolView>) -> Result<
    Seq<FunctionCfgReportView>,
    FileErrorView,
> {
    match vfs.text_of(path) {
        None => Err(FileErrorView::InvalidUtf8 { path }),
        Some(source) => Ok(
            reports(flow_graph::flow_graph(source, source_type::source_kind(path)), path, symbols),
        ),
    }
}

/// A result by its characters.
pub open spec fn reports_result(result: Result<Vec<FunctionCfgReport>, FileError>) -> Result<
    Seq<FunctionCfgReportView>,
    FileErrorView,
> {
    match result {
        Ok(reports) => Ok(reports_view(reports@)),
        Err(error) => Err(error@),
    }
}

/// The control flow of the functions and methods of the file at `path` among
/// `symbols`.
pub fn analyze_file_cfg(vfs: &Vfs, path: &str, symbols: &[Symbol]) -> (result: Result<
    Vec<FunctionCfgReport>,
    FileError,
>)
    ensures
        reports_result(result) == file_reports(
            vfs@,
            path@,
            symbol_classify::symbols_view(symbols@),
        ),
{
    match vfs.read_utf8(path) {
        None => Err(FileError::InvalidUtf8 { path: path.to_string() }),
        Some(source) => {
            let kind = source_type::resolve_source_type(path);
            let graph = flow_graph::build_flow_graph(source, kind);
            Ok(report_symbols(graph.as_ref(), path, symbols))
        },
    }
}

/// What the stage says of many files.
#[derive(Debug)]
pub struct CfgBatch {
    pub reports: Vec<FunctionCfgReport>,
    pub failures: Vec<FileError>,
}

impl CfgBatch {
    /// Whether the batch holds `results`.
    pub open spec fn holds(
        &self,
        results: Seq<Result<Seq<FunctionCfgReportView>, FileErrorView>>,
    ) -> bool {
        &&& reports_view(self.reports@) == batch::collected(results)
        &&& batch::errors_view(self.failures@) == batch::failures(results)
    }

    /// An empty batch.
    pub fn new() -> (b: Self)
        ensures
            b.holds(Seq::empty()),
    {
        let b = CfgBatch { reports: Vec::new(), failures: Vec::new() };
        assert(reports_view(b.reports@) =~= Seq::empty());
        assert(batch::errors_view(b.failures@) =~= Seq::empty());
        b
    }

    /// Adds the result of one more file.
    pub fn record(&mut self, result: Result<Vec<FunctionCfgReport>, FileError>)
        ensures
            forall|results: Seq<Result<Seq<FunctionCfgReportView>, FileErrorView>>| #[trigger]
                old(self).holds(results) ==> final(self).holds(
                    results.push(reports_result(result)),
                ),
    {
        let ghost added = reports_result(result);
        match result {
            Ok(found) => {
                let mut found = found;
                self.reports.append(&mut found);
            },
            Err(error) => self.failures.push(error),
        }
        proof {
            assert forall|results: Seq<Result<Seq<FunctionCfgReportView>, FileErrorView>>| #[trigger]
                old(self).holds(results) implies self.holds(results.push(added)) by {
                let more = results.push(added);
                assert(more.drop_last() =~= results);
                assert(reports_view(self.reports@) =~= batch::collected(more));
                assert(batch::errors_view(self.failures@) =~= batch::failures(more));
            }
        }
    }
}

impl Default for CfgBatch {
    fn default() -> (b: Self)
        ensures
            b.holds(Seq::empty()),
    {
        CfgBatch::new()
    }
}

/// The control flow of the functions and methods of the files at `paths`
/// among `symbols`.
pub fn analyze_all(vfs: &Vfs, symbols: &[Symbol], paths: &[&str]) -> (b: CfgBatch)
    ensures
        b.holds(
            text::str_views(paths@).map_values(
                |p: Seq<char>| file_reports(vfs@, p, symbol_classify::symbols_view(symbols@)),
            ),
        ),
{
    let ghost shown = symbol_classify::symbols_view(symbols@);
    let ghost results = text::str_views(paths@).map_values(
        |p: Seq<char>| file_reports(vfs@, p, shown),
    );
    let mut b = CfgBatch::new();
    for i in 0..paths.len()
        invariant
            shown == symbol_classify::symbols_view(symbols@),
            results == text::str_views(paths@).map_values(
                |p: Seq<char>| file_reports(vfs@, p, shown),
            ),
            b.holds(results.take(i as int)),
    {
        let result = analyze_file_cfg(vfs, paths[i], symbols);
        assert(results.take(i + 1) =~= results.take(i as int).push(reports_result(result)));
        b.record(result);
    }
    assert(results.take(paths@.len() as int) =~= results);
    b
}

/// Only functions and methods of the file are reported on, and each of them
/// is: the reports are those of the symbols that qualify, in order.
pub proof fn law_reports_are_of_functions_and_methods(
    graph: Option<Seq<FlowBlockView>>,
    path: Seq<char>,
    symbols: Seq<SymbolView>,
)
    ensures
        reports(graph, path, symbols) == symbols.filter(
            |s: SymbolView| is_reported(path, s),
        ).map_values(|s: SymbolView| report(graph, s)),
    decreases symbols.len(),
{
    let keep = |s: SymbolView| is_reported(path, s);
    let tell = |s: SymbolView| report(graph, s);
    reveal(Seq::filter);
    if symbols.len() > 0 {
        law_reports_are_of_functions_and_methods(graph, path, symbols.drop_last());
        let before = symbols.drop_last().filter(keep);
        if keep(symbols.last()) {
            assert(before.push(symbols.last()).map_values(tell) =~= before.map_values(tell).push(
                report(graph, symbols.last()),
            ));
        }
    } else {
        assert(symbols.filter(keep).map_values(tell) =~= Seq::empty());
    }
}

proof fn lemma_reported_block(
    graph: Seq<FlowBlockView>,
    span_start: u32,
    span_end: u32,
    upto: nat,
    i: int,
) -> (j: int)
    requires
        0 <= i < reported_blocks(graph, span_start, span_end, upto).len(),
    ensures
        0 <= j < upto,
        complexity::is_member(graph, span_start, span_end, j),
        reported_blocks(graph, span_start, span_end, upto)[i] == reported_block(
            graph,
            span_start,
            span_end,
            j,
        ),
    decreases upto,
{
    let before = reported_blocks(graph, span_start, span_end, (upto - 1) as nat);
    if i < before.len() {
        lemma_reported_block(graph, span_start, span_end, (upto - 1) as nat, i)
    } else {
        upto - 1
    }
}

proof fn lemma_member_is_reported(
    graph: Seq<FlowBlockView>,
    span_start: u32,
    span_end: u32,
    upto: nat,
    j: int,
) -> (i: int)
    requires
        0 <= j < upto,
        complexity::is_member(graph, span_start, span_end, j),
    ensures
        0 <= i < reported_blocks(graph, span_start, span_end, upto).len(),
        reported_blocks(graph, span_start, span_end, upto)[i] == reported_block(
            graph,
            span_start,
            span_end,
            j,
        ),
    decreases upto,
{
    if j < upto - 1 {
        lemma_member_is_reported(graph, span_start, span_end, (upto - 1) as nat, j)
    } else {
        reported_blocks(graph, span_start, span_end, (upto - 1) as nat).len() as int
    }
}

proof fn lemma_next_is_member(
    graph: Seq<FlowBlockView>,
    span_start: u32,
    span_end: u32,
    successors: Seq<FlowEdge>,
    k: int,
) -> (j: int)
    requires
        0 <= k < next_ids(graph, span_start, span_end, successors).len(),
    ensures
        complexity::is_member(graph, span_start, span_end, j),
        next_ids(graph, span_start, span_end, successors)[k] == block_id(j as nat),
    decreases successors.len(),
{
    let before = next_ids(graph, span_start, span_end, successors.drop_last());
    if k < before.len() {
        lemma_next_is_member(graph, span_start, span_end, successors.drop_last(), k)
    } else {
        successors.last().target as int
    }
}

/// What a block of a function leads to is itself among the blocks of that
/// function.
pub proof fn law_blocks_lead_to_blocks(
    graph: Option<Seq<FlowBlockView>>,
    span_start: u32,
    span_end: u32,
    i: int,
    k: int,
)
    requires
        0 <= i < span_blocks(graph, span_start, span_end).len(),
        0 <= k < span_blocks(graph, span_start, span_end)[i].next.len(),
    ensures
        exists|m: int|
            0 <= m < span_blocks(graph, span_start, span_end).len() && (#[trigger] span_blocks(
                graph,
                span_start,
                span_end,
            )[m]).block_id == span_blocks(graph, span_start, span_end)[i].next[k],
{
    let all = graph->0;
    let j = lemma_reported_block(all, span_start, span_end, all.len(), i);
    let next = lemma_next_is_member(all, span_start, span_end, all[j].successors, k);
    let m = lemma_member_is_reported(all, span_start, span_end, all.len(), next);
    assert(span_blocks(graph, span_start, span_end)[m].block_id == block_id(next as nat));
}

/// Every block that starts in a function is reported, once and in order: with
/// the number that it has in the file as its id, the span of the first node
/// that it comes from, and whether it can be reached.
pub proof fn law_every_block_is_reported(
    graph: Seq<FlowBlockView>,
    span_start: u32,
    span_end: u32,
    j: int,
    k: int,
    node: (u32, u32),
)
    requires
        0 <= j < graph.len(),
        0 <= k < graph[j].instructions.len(),
        graph[j].instructions[k] == Some(node),
        forall|n: int| 0 <= n < k ==> #[trigger] graph[j].instructions[n] is None,
        span_start <= node.0 < span_end,
    ensures
        span_blocks(Some(graph), span_start, span_end).len() == complexity::member_count(
            graph,
            span_start,
            span_end,
            graph.len(),
        ),
        exists|i: int|
            0 <= i < span_blocks(Some(graph), span_start, span_end).len() && {
                let block = #[trigger] span_blocks(Some(graph), span_start, span_end)[i];
                &&& block.block_id == "block_"@ + text::decimal(j as nat)
                &&& block.span_start == node.0
                &&& block.span_end == node.1
                &&& block.is_unreachable == graph[j].is_unreachable
            },
{
    complexity::law_blocks_start_at_their_first_node(graph, span_start, span_end, j, k, node);
    complexity::lemma_first_node(graph[j].instructions, k);
    lemma_blocks_counted(graph, span_start, span_end, graph.len());
    let i = lemma_member_is_reported(graph, span_start, span_end, graph.len(), j);
    let block = span_blocks(Some(graph), span_start, span_end)[i];
    assert(block == reported_block(graph, span_start, span_end, j));
}

proof fn lemma_blocks_counted(
    graph: Seq<FlowBlockView>,
    span_start: u32,
    span_end: u32,
    upto: nat,
)
    ensures
        reported_blocks(graph, span_start, span_end, upto).len() == complexity::member_count(
            graph,
            span_start,
            span_end,
            upto,
        ),
    decreases upto,
{
    if upto > 0 {
        lemma_blocks_counted(graph, span_start, span_end, (upto - 1) as nat);
    }
}

/// A block leads on to each block of the function that its edges lead to, in
/// their order, and to no other.
pub proof fn law_blocks_lead_where_their_edges_lead(
    graph: Seq<FlowBlockView>,
    span_start: u32,
    span_end: u32,
    before: Seq<FlowEdge>,
    edge: FlowEdge,
)
    ensures
        next_ids(graph, span_start, span_end, Seq::empty()).len() == 0,
        next_ids(graph, span_start, span_end, before.push(edge)) == if complexity::is_member(
            graph,
            span_start,
            span_end,
            edge.target as int,
        ) {
            next_ids(graph, span_start, span_end, before).push(
                "block_"@ + text::decimal(edge.target as nat),
            )
        } else {
            next_ids(graph, span_start, span_end, before)
        },
{
    assert(before.push(edge).drop_last() =~= before);
}

/// The blocks of a function lead on by the edges that they have in the file.
pub proof fn law_blocks_keep_their_edges(
    graph: Seq<FlowBlockView>,
    span_start: u32,
    span_end: u32,
    i: int,
)
    requires
        0 <= i < span_blocks(Some(graph), span_start, span_end).len(),
    ensures
        exists|j: int|
            complexity::is_member(graph, span_start, span_end, j) && span_blocks(
                Some(graph),
                span_start,
                span_end,
            )[i].block_id == "block_"@ + text::decimal(j as nat) && span_blocks(
                Some(graph),
                span_start,
                span_end,
            )[i].next == next_ids(
                graph,
                span_start,
                span_end,
                (#[trigger] graph[j]).successors,
            ),
{
    let j = lemma_reported_block(graph, span_start, span_end, graph.len(), i);
    assert(span_blocks(Some(graph), span_start, span_end)[i] == reported_block(
        graph,
        span_start,
        span_end,
        j,
    ));
    assert(reported_block(graph, span_start, span_end, j).next == next_ids(
        graph,
        span_start,
        span_end,
        graph[j].successors,
    ));
}

/// A report is on a function or a method of the file, under its id and name,
/// with the complexity and the blocks of its span. A file without a graph has
/// reports of complexity one and no blocks.
pub proof fn law_reports_tell_of_their_symbol(
    graph: Seq<FlowBlockView>,
    path: Seq<char>,
    symbol: SymbolView,
)
    ensures
        is_reported(path, symbol) <==> symbol.file == path && (symbol.kind == SymbolKind::Function
            || symbol.kind == SymbolKind::Method),
        report(Some(graph), symbol).symbol_id == symbol.id,
        report(Some(graph), symbol).name == symbol.name,
        report(Some(graph), symbol).cyclomatic_complexity == complexity::cyclomatic(
            graph,
            symbol.span_start,
            symbol.span_end,
        ) as u32,
        report(Some(graph), symbol).blocks == span_blocks(
            Some(graph),
            symbol.span_start,
            symbol.span_end,
        ),
        report(None, symbol).symbol_id == symbol.id,
        report(None, symbol).name == symbol.name,
        report(None, symbol).cyclomatic_complexity == 1,
        report(None, symbol).blocks.len() == 0,
{
}

/// A file has its control flow told exactly if it is there and is text.
pub proof fn law_text_has_control_flow(vfs: VfsView, path: Seq<char>, symbols: Seq<SymbolView>)
    ensures
        file_reports(vfs, path, symbols) is Ok <==> vfs.text_of(path) is Some,
        vfs.text_of(path) is None ==> file_reports(vfs, path, symbols) == Err::<
            Seq<FunctionCfgReportView>,
            _,
        >(FileErrorView::InvalidUtf8 { path }),
        vfs.text_of(path) matches Some(source) ==> file_reports(vfs, path, symbols) == Ok::<
            _,
            FileErrorView,
        >(
            reports(
                flow_graph::flow_graph(source, source_type::source_kind(path)),
                path,
                symbols,
            ),
        ),
{
}

/// A batch has the reports of its files, one after another, and their failures.
pub proof fn law_batches_of_reports(
    b: CfgBatch,
    results: Seq<Result<Seq<FunctionCfgReportView>, FileErrorView>>,
)
    requires
        b.holds(results),
    ensures
        reports_view(b.reports@) == batch::collected(results),
        batch::errors_view(b.failures@) == batch::failures(results),
{
}

} // verus!
