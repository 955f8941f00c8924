//! The control flow graph of a source file, by what the analysis reads of it.
use crate::engine::parse::source_type::parser_source_type;
use crate::engine::parse::source_type::SourceKind;
use oxc_allocator::Allocator;
use oxc_cfg::EdgeType;
use oxc_parser::Parser;
use oxc_semantic::Semantic;
use oxc_semantic::SemanticBuilder;
use oxc_span::GetSpan;
use petgraph::visit::EdgeRef;
use vstd::prelude::*;

verus! {

/// A way by which control may pass from a block to another.
#[derive(Debug, Clone, Copy, PartialEq, Eq, Structural)]
pub struct FlowEdge {
    /// The number of the block to which control passes.
    pub target: usize,
    /// Whether control passes only if an error is raised.
    pub on_error: bool,
}

/// A block of instructions that run one after another.
pub struct FlowBlock {
    /// For each instruction the span of the node that it comes from, where it
    /// comes from one.
    pub instructions: Vec<Option<(u32, u32)>>,
    /// The ways by which control may pass on.
    pub successors: Vec<FlowEdge>,
    pub is_unreachable: bool,
}

/// A `FlowBlock` by what it holds.
pub struct FlowBlockView {
    pub instructions: Seq<Option<(u32, u32)>>,
    pub successors: Seq<FlowEdge>,
    pub is_unreachable: bool,
}

/// The blocks of a file, each under its number.
pub struct FlowGraph {
    pub blocks: Vec<FlowBlock>,
}

impl View for FlowBlock {
    type V = FlowBlockView;

    open spec fn view(&self) -> FlowBlockView {
        FlowBlockView {
            instructions: self.instructions@,
            successors: self.successors@,
            is_unreachable: self.is_unreachable,
        }
    }
}

impl View for FlowGraph {
    type V = Seq<FlowBlockView>;

    open spec fn view(&self) -> Seq<FlowBlockView> {
        self.blocks@.map_values(|b: FlowBlock| b@)
    }
}

/// A flow graph that may be absent, by what it holds.
pub open spec fn opt_graph_view(graph: Option<FlowGraph>) -> Option<Seq<FlowBlockView>> {
    match graph {
        Some(graph) => Some(graph@),
        None => None,
    }
}

/// How many edges lead out of the blocks.
pub open spec fn edge_count(graph: Seq<FlowBlockView>) -> nat
    decreases graph.len(),
{
    if graph.len() == 0 {
        0
    } else {
        edge_count(graph.drop_last()) + graph.last().successors.len()
    }
}

/// The control flow graph that `oxc_semantic::SemanticBuilder` builds of a
/// text read as `kind`.
pub uninterp spec fn flow_graph(text: Seq<char>, kind: SourceKind) -> Option<Seq<FlowBlockView>>;

/// The semantic model of a program (`oxc_semantic::Semantic`).
#[verifier::external_type_specification]
#[verifier::external_body]
pub struct ExSemantic<'a>(Semantic<'a>);

/// The kind of an edge of a control flow graph (`oxc_cfg::EdgeType`).
#[verifier::external_type_specification]
#[verifier::external_body]
pub struct ExEdgeType(EdgeType);

/// Whether an edge is taken only if an error is raised: whether it is of the
/// kind `EdgeType::Error`.
#[verifier::external_body]
fn is_error(kind: &EdgeType) -> (r: bool) {
    matches!(kind, EdgeType::Error(_))
}

/// The graph of a semantic model (`Semantic::cfg`), its blocks in the order
/// of `Graph::node_indices`, each with its instructions, its outgoing `edges`
/// and whether it `is_unreachable`.
#[verifier::external_body]
fn graph_of(semantic: &Semantic<'_>) -> (graph: Option<FlowGraph>) {
    let span = |id| {
        let span = semantic.nodes().get_node(id).span();
        (span.start, span.end)
    };
    let cfg = semantic.cfg()?;
    let blocks = cfg.graph().node_indices().map(|ix| FlowBlock {
        instructions: cfg.basic_block(ix).instructions.iter().map(|i| i.node_id.map(span)).collect(),
        successors: cfg.graph().edges(ix).map(|edge| {
            FlowEdge { target: edge.target().index(), on_error: is_error(edge.weight()) }
        }).collect(),
        is_unreachable: cfg.basic_block(ix).is_unreachable(),
    });
    Some(FlowGraph { blocks: blocks.collect() })
}

/// Parses `text` (`oxc_parser::Parser::parse`) and builds the control flow
/// graph (`SemanticBuilder::with_cfg`, with the nodes that its instructions
/// refer to). The graph depends on the text and on `kind` alone. Its edges
/// are numbered in 32 bits, so there are no more of them than that.
#[verifier::external_body]
pub(crate) fn build_flow_graph(text: &str, kind: SourceKind) -> (graph: Option<FlowGraph>)
    ensures
        opt_graph_view(graph) == flow_graph(text@, kind),
        graph matches Some(g) ==> edge_count(g@) <= u32::MAX,
{
    let allocator = Allocator::default();
    let ret = Parser::new(&allocator, text, parser_source_type(kind)).parse();
    let builder = SemanticBuilder::new_compiler().with_build_nodes(true).with_cfg(true);
    let built = builder.build(&ret.program);
    graph_of(&built.semantic)
}

/// Whether a control flow graph can be built of `text`, without building the
/// table of nodes (`SemanticBuilder::with_cfg`, `Semantic::cfg`). The builder
/// makes the graph with or without that table.
#[verifier::external_body]
pub(crate) fn has_flow_graph(text: &str, kind: SourceKind) -> (r: bool)
    ensures
        r == flow_graph(text@, kind) is Some,
{
    let allocator = Allocator::default();
    let ret = Parser::new(&allocator, text, parser_source_type(kind)).parse();
    let built = SemanticBuilder::new_compiler().with_cfg(true).build(&ret.program);
    built.semantic.cfg().is_some()
}

} // verus!
