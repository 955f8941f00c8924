//! Cyclomatic complexity of a function, from the part of the control flow
//! graph that lies in its span.
//!
//! A function leaves its span by its returns and where it ends. All the edges
//! by which one block leaves count as one edge, and all of them lead to one
//! exit that stands for what lies outside, so that a function with many
//! returns is no more complex than one that merely ends. An error may be
//! raised in every block: that it would leave the function is no way out,
//! unless the block has no other.
use super::flow_graph;
use super::flow_graph::FlowBlock;
use super::flow_graph::FlowBlockView;
use super::flow_graph::FlowEdge;
use super::flow_graph::FlowGraph;
use vstd::prelude::*;

verus! {

/// The first node that an instruction comes from.
pub open spec fn first_node(instructions: Seq<Option<(u32, u32)>>) -> Option<(u32, u32)>
    decreases instructions.len(),
{
    if instructions.len() == 0 {
        None
    } else if instructions[0] is Some {
        instructions[0]
    } else {
        first_node(instructions.drop_first())
    }
}

/// The span of the node that a block starts with, if any of its instructions
/// comes from one.
pub open spec fn anchor(block: FlowBlockView) -> Option<(u32, u32)> {
    first_node(block.instructions)
}

/// Whether block `i` of the graph starts in the span.
pub open spec fn is_member(
    graph: Seq<FlowBlockView>,
    span_start: u32,
    span_end: u32,
    i: int,
) -> bool {
    &&& 0 <= i < graph.len()
    &&& anchor(graph[i]) matches Some((at, _)) && span_start <= at < span_end
}

/// How many of `successors` start in the span.
pub open spec fn inner_edges(
    graph: Seq<FlowBlockView>,
    span_start: u32,
    span_end: u32,
    successors: Seq<FlowEdge>,
) -> nat
    decreases successors.len(),
{
    if successors.len() == 0 {
        0
    } else {
        inner_edges(graph, span_start, span_end, successors.drop_last()) + if is_member(
            graph,
            span_start,
            span_end,
            successors.last().target as int,
        ) {
            1nat
        } else {
            0nat
        }
    }
}

/// Whether control passes on by these edges only if an error is raised.
pub open spec fn only_errors(successors: Seq<FlowEdge>) -> bool {
    forall|k: int| 0 <= k < successors.len() ==> (#[trigger] successors[k]).on_error
}

/// Whether one of `successors` leads out of the span; with `ordinary`, one
/// that needs no error.
pub open spec fn leads_out(
    graph: Seq<FlowBlockView>,
    span_start: u32,
    span_end: u32,
    successors: Seq<FlowEdge>,
    ordinary: bool,
) -> bool {
    exists|k: int|
        0 <= k < successors.len() && !is_member(
            graph,
            span_start,
            span_end,
            (#[trigger] successors[k]).target as int,
        ) && !(ordinary && successors[k].on_error)
}

/// Whether control may leave the span from a block with these successors.
/// Errors count only where nothing else leads on: there the function ends.
pub open spec fn leaves(
    graph: Seq<FlowBlockView>,
    span_start: u32,
    span_end: u32,
    successors: Seq<FlowEdge>,
) -> bool {
    leads_out(graph, span_start, span_end, successors, !only_errors(successors))
}

/// The edges of block `i`: those that stay in the span, and one for all
/// those that leave it.
pub open spec fn edges_of(
    graph: Seq<FlowBlockView>,
    span_start: u32,
    span_end: u32,
    i: int,
) -> nat {
    inner_edges(graph, span_start, span_end, graph[i].successors) + if leaves(
        graph,
        span_start,
        span_end,
        graph[i].successors,
    ) {
        1nat
    } else {
        0nat
    }
}

/// How many of the first `upto` blocks start in the span.
pub open spec fn member_count(
    graph: Seq<FlowBlockView>,
    span_start: u32,
    span_end: u32,
    upto: nat,
) -> nat
    decreases upto,
{
    if upto == 0 {
        0
    } else {
        member_count(graph, span_start, span_end, (upto - 1) as nat) + if is_member(
            graph,
            span_start,
            span_end,
            upto - 1,
        ) {
            1nat
        } else {
            0nat
        }
    }
}

/// The edges of those of the first `upto` blocks that start in the span.
pub open spec fn member_edges(
    graph: Seq<FlowBlockView>,
    span_start: u32,
    span_end: u32,
    upto: nat,
) -> nat
    decreases upto,
{
    if upto == 0 {
        0
    } else {
        member_edges(graph, span_start, span_end, (upto - 1) as nat) + if is_member(
            graph,
            span_start,
            span_end,
            upto - 1,
        ) {
            edges_of(graph, span_start, span_end, upto - 1)
        } else {
            0nat
        }
    }
}

/// Whether control may leave the span from any block that starts in it.
pub open spec fn has_exit(graph: Seq<FlowBlockView>, span_start: u32, span_end: u32) -> bool {
    exists|i: int|
        #![trigger graph[i]]
        is_member(graph, span_start, span_end, i) && leaves(
            graph,
            span_start,
            span_end,
            graph[i].successors,
        )
}

/// The cyclomatic complexity of what lies in the span: edges less nodes plus
/// two, where the exit counts as a node if there is one, but at least one. A
/// span in which no block starts has complexity one.
pub open spec fn cyclomatic(graph: Seq<FlowBlockView>, span_start: u32, span_end: u32) -> int {
    let nodes = member_count(graph, span_start, span_end, graph.len());
    let edges = member_edges(graph, span_start, span_end, graph.len());
    let exit: int = if has_exit(graph, span_start, span_end) {
        1
    } else {
        0
    };
    if nodes == 0 || edges - (nodes + exit) + 2 < 1 {
        1
    } else {
        edges - (nodes + exit) + 2
    }
}

/// The complexity of a span, of a file that may have no graph.
pub open spec fn span_complexity(
    graph: Option<Seq<FlowBlockView>>,
    span_start: u32,
    span_end: u32,
) -> int {
    match graph {
        Some(graph) => cyclomatic(graph, span_start, span_end),
        None => 1,
    }
}

/// The span of the node that a block starts with.
pub fn block_anchor(block: &FlowBlock) -> (span: Option<(u32, u32)>)
    ensures
        span == anchor(block@),
{
    let ghost all = block.instructions@;
    assert(all.skip(0) =~= all);
    for i in 0..block.instructions.len()
        invariant
            all == block.instructions@,
            first_node(all.skip(i as int)) == first_node(all),
    {
        if block.instructions[i].is_some() {
            return block.instructions[i];
        }
        assert(all.skip(i as int).drop_first() =~= all.skip(i + 1));
    }
    None
}

/// Whether a block starts in the span.
pub fn starts_in(block: &FlowBlock, span_start: u32, span_end: u32) -> (r: bool)
    ensures
        r == (anchor(block@) matches Some((at, _)) && span_start <= at < span_end),
{
    match block_anchor(block) {
        Some((at, _)) => span_start <= at && at < span_end,
        None => false,
    }
}

/// For each block whether it starts in the span.
pub fn members(graph: &FlowGraph, span_start: u32, span_end: u32) -> (r: Vec<bool>)
    ensures
        r@.len() == graph@.len(),
        forall|i: int|
            0 <= i < r@.len() ==> #[trigger] r@[i] == is_member(graph@, span_start, span_end, i),
{
    let mut r: Vec<bool> = Vec::new();
    for i in 0..graph.blocks.len()
        invariant
            r@.len() == i,
            forall|k: int|
                0 <= k < i ==> #[trigger] r@[k] == is_member(graph@, span_start, span_end, k),
    {
        let inside = starts_in(&graph.blocks[i], span_start, span_end);
        assert(graph@[i as int] == graph.blocks@[i as int]@);
        r.push(inside);
    }
    r
}

proof fn lemma_edges_fit(
    graph: Seq<FlowBlockView>,
    span_start: u32,
    span_end: u32,
    successors: Seq<FlowEdge>,
)
    ensures
        inner_edges(graph, span_start, span_end, successors) <= successors.len(),
        leads_out(graph, span_start, span_end, successors, false) ==> inner_edges(
            graph,
            span_start,
            span_end,
            successors,
        ) < successors.len(),
        leaves(graph, span_start, span_end, successors) ==> leads_out(
            graph,
            span_start,
            span_end,
            successors,
            false,
        ),
    decreases successors.len(),
{
    if successors.len() > 0 {
        let init = successors.drop_last();
        lemma_edges_fit(graph, span_start, span_end, init);
        lemma_one_more_successor(graph, span_start, span_end, init, successors.last(), false);
        assert(init.push(successors.last()) =~= successors);
    }
}

proof fn lemma_member_edges_fit(graph: Seq<FlowBlockView>, span_start: u32, span_end: u32, upto: nat)
    requires
        upto <= graph.len(),
    ensures
        member_edges(graph, span_start, span_end, upto) <= flow_graph::edge_count(
            graph.take(upto as int),
        ),
        flow_graph::edge_count(graph.take(upto as int)) <= flow_graph::edge_count(graph),
    decreases upto,
{
    lemma_prefix_edges(graph, upto);
    if upto > 0 {
        lemma_member_edges_fit(graph, span_start, span_end, (upto - 1) as nat);
        assert(graph.take(upto as int).drop_last() =~= graph.take(upto - 1));
        lemma_edges_fit(graph, span_start, span_end, graph[upto - 1].successors);
    }
}

proof fn lemma_prefix_edges(graph: Seq<FlowBlockView>, upto: nat)
    requires
        upto <= graph.len(),
    ensures
        flow_graph::edge_count(graph.take(upto as int)) <= flow_graph::edge_count(graph),
    decreases graph.len() - upto,
{
    if upto == graph.len() {
        assert(graph.take(upto as int) =~= graph);
    } else {
        lemma_prefix_edges(graph, upto + 1);
        assert(graph.take(upto as int + 1).drop_last() =~= graph.take(upto as int));
    }
}

/// The complexity of the span of a function in the graph of its file; one if
/// there is no graph.
pub fn complexity_for_span(graph: Option<&FlowGraph>, span_start: u32, span_end: u32) -> (r: u32)
    requires
        graph matches Some(g) ==> flow_graph::edge_count(g@) <= u32::MAX,
    ensures
        r == (match graph {
            Some(g) => cyclomatic(g@, span_start, span_end),
            None => 1,
        }) as u32,
{
    let graph = match graph {
        Some(graph) => graph,
        None => {
            return 1;
        },
    };
    let ghost all = graph@;
    let inside = members(graph, span_start, span_end);
    let mut nodes: u64 = 0;
    let mut edges: u64 = 0;
    let mut exit: u64 = 0;
    for i in 0..graph.blocks.len()
        invariant
            all == graph@,
            all.len() == graph.blocks@.len(),
            inside@.len() == all.len(),
            forall|k: int|
                0 <= k < all.len() ==> #[trigger] inside@[k] == is_member(
                    all,
                    span_start,
                    span_end,
                    k,
                ),
            flow_graph::edge_count(all) <= u32::MAX,
            nodes <= i,
            nodes == member_count(all, span_start, span_end, i as nat),
            edges == member_edges(all, span_start, span_end, i as nat),
            exit <= 1,
            exit == 1 <==> exists|k: int|
                #![trigger all[k]]
                0 <= k < i && is_member(all, span_start, span_end, k) && leaves(
                    all,
                    span_start,
                    span_end,
                    all[k].successors,
                ),
    {
        let ghost exit_before = exit;
        proof {
            lemma_member_edges_fit(all, span_start, span_end, i as nat);
            lemma_member_edges_fit(all, span_start, span_end, (i + 1) as nat);
            assert(all[i as int] == graph.blocks@[i as int]@);
            assert(all.take(i + 1).drop_last() =~= all.take(i as int));
            assert(flow_graph::edge_count(all.take(i + 1)) == flow_graph::edge_count(
                all.take(i as int),
            ) + all[i as int].successors.len());
        }
        if inside[i] {
            nodes = nodes + 1;
            let successors = &graph.blocks[i].successors;
            let mut out: bool = false;
            let mut ordinary_out: bool = false;
            let mut ordinary: bool = false;
            let ghost start = edges;
            for j in 0..successors.len()
                invariant
                    all == graph@,
                    inside@.len() == all.len(),
                    forall|k: int|
                        0 <= k < all.len() ==> #[trigger] inside@[k] == is_member(
                            all,
                            span_start,
                            span_end,
                            k,
                        ),
                    start <= u32::MAX,
                    start + successors@.len() <= u32::MAX,
                    edges == start + inner_edges(
                        all,
                        span_start,
                        span_end,
                        successors@.take(j as int),
                    ),
                    edges <= start + j,
                    out == leads_out(
                        all,
                        span_start,
                        span_end,
                        successors@.take(j as int),
                        false,
                    ),
                    ordinary_out == leads_out(
                        all,
                        span_start,
                        span_end,
                        successors@.take(j as int),
                        true,
                    ),
                    ordinary == !only_errors(successors@.take(j as int)),
            {
                let next: FlowEdge = successors[j];
                let ghost sofar = successors@.take(j as int);
                proof {
                    assert(successors@.take(j + 1) =~= sofar.push(next));
                    lemma_one_more_successor(all, span_start, span_end, sofar, next, false);
                    lemma_one_more_successor(all, span_start, span_end, sofar, next, true);
                }
                if next.target < inside.len() && inside[next.target] {
                    edges = edges + 1;
                } else {
                    out = true;
                    if !next.on_error {
                        ordinary_out = true;
                    }
                }
                if !next.on_error {
                    ordinary = true;
                }
            }
            let leaving: u64 = if ordinary_out || (out && !ordinary) {
                1
            } else {
                0
            };
            proof {
                assert(successors@.take(successors@.len() as int) =~= successors@);
                lemma_edges_fit(all, span_start, span_end, successors@);
                lemma_ordinary_out(all, span_start, span_end, successors@);
            }
            edges = edges + leaving;
            if leaving == 1 {
                exit = 1;
            }
        }
        proof {
            let hit = is_member(all, span_start, span_end, i as int) && leaves(
                all,
                span_start,
                span_end,
                all[i as int].successors,
            );
            assert(exit == 1 <==> (exit_before == 1 || hit));
        }
    }
    proof {
        assert(exit == 1 <==> has_exit(all, span_start, span_end));
        lemma_member_edges_fit(all, span_start, span_end, all.len());
    }
    if nodes == 0 || edges + 1 - exit < nodes {
        1
    } else {
        #[verifier::truncate]
        let r: u32 = (edges + 2 - exit - nodes) as u32;
        r
    }
}

/// Complexity is at least one, whatever the graph.
pub proof fn law_complexity_is_positive(graph: Seq<FlowBlockView>, span_start: u32, span_end: u32)
    ensures
        cyclomatic(graph, span_start, span_end) >= 1,
        span_complexity(Some(graph), span_start, span_end) >= 1,
        span_complexity(None, span_start, span_end) == 1,
{
}

/// A span in which no block starts has complexity one.
pub proof fn law_empty_span_has_complexity_one(
    graph: Seq<FlowBlockView>,
    span_start: u32,
    span_end: u32,
)
    requires
        forall|i: int| !is_member(graph, span_start, span_end, i),
    ensures
        cyclomatic(graph, span_start, span_end) == 1,
{
    lemma_no_members(graph, span_start, span_end, graph.len());
}

proof fn lemma_no_members(graph: Seq<FlowBlockView>, span_start: u32, span_end: u32, upto: nat)
    requires
        forall|i: int| !is_member(graph, span_start, span_end, i),
    ensures
        member_count(graph, span_start, span_end, upto) == 0,
    decreases upto,
{
    if upto > 0 {
        lemma_no_members(graph, span_start, span_end, (upto - 1) as nat);
    }
}

/// The graph with one more edge, from block `i`.
pub open spec fn with_edge(graph: Seq<FlowBlockView>, i: int, edge: FlowEdge) -> Seq<FlowBlockView> {
    with_successors(graph, i, graph[i].successors.push(edge))
}

/// The graph with other successors for block `i`.
pub open spec fn with_successors(
    graph: Seq<FlowBlockView>,
    i: int,
    successors: Seq<FlowEdge>,
) -> Seq<FlowBlockView> {
    graph.update(i, FlowBlockView { successors, ..graph[i] })
}

proof fn lemma_ordinary_out(
    graph: Seq<FlowBlockView>,
    span_start: u32,
    span_end: u32,
    successors: Seq<FlowEdge>,
)
    ensures
        leads_out(graph, span_start, span_end, successors, true) ==> leads_out(
            graph,
            span_start,
            span_end,
            successors,
            false,
        ) && !only_errors(successors),
{
    if leads_out(graph, span_start, span_end, successors, true) {
        let k = choose|k: int|
            0 <= k < successors.len() && !is_member(
                graph,
                span_start,
                span_end,
                (#[trigger] successors[k]).target as int,
            ) && !(true && successors[k].on_error);
        assert(!successors[k].on_error);
    }
}

/// What one more edge makes of the block it starts from.
proof fn lemma_one_more_successor(
    graph: Seq<FlowBlockView>,
    span_start: u32,
    span_end: u32,
    successors: Seq<FlowEdge>,
    edge: FlowEdge,
    ordinary: bool,
)
    ensures
        inner_edges(graph, span_start, span_end, successors.push(edge)) == inner_edges(
            graph,
            span_start,
            span_end,
            successors,
        ) + if is_member(graph, span_start, span_end, edge.target as int) {
            1nat
        } else {
            0nat
        },
        leads_out(graph, span_start, span_end, successors.push(edge), ordinary) == (leads_out(
            graph,
            span_start,
            span_end,
            successors,
            ordinary,
        ) || (!is_member(graph, span_start, span_end, edge.target as int) && !(ordinary
            && edge.on_error))),
        only_errors(successors.push(edge)) == (only_errors(successors) && edge.on_error),
{
    let more = successors.push(edge);
    assert(more.drop_last() =~= successors);
    assert(more[successors.len() as int] == edge);
    assert forall|k: int| 0 <= k < successors.len() implies more[k] == successors[k] by {}
    if leads_out(graph, span_start, span_end, successors, ordinary) {
        let k = choose|k: int|
            0 <= k < successors.len() && !is_member(
                graph,
                span_start,
                span_end,
                (#[trigger] successors[k]).target as int,
            ) && !(ordinary && successors[k].on_error);
        assert(more[k] == successors[k]);
    }
    if leads_out(graph, span_start, span_end, more, ordinary) {
        let k = choose|k: int|
            0 <= k < more.len() && !is_member(
                graph,
                span_start,
                span_end,
                (#[trigger] more[k]).target as int,
            ) && !(ordinary && more[k].on_error);
        if k < successors.len() {
            assert(successors[k] == more[k]);
        }
    }
    if only_errors(more) {
        assert forall|k: int| 0 <= k < successors.len() implies (
        #[trigger] successors[k]).on_error by {
            assert(more[k].on_error);
        }
    }
}

proof fn lemma_edges_by_members(
    a: Seq<FlowBlockView>,
    b: Seq<FlowBlockView>,
    span_start: u32,
    span_end: u32,
    successors: Seq<FlowEdge>,
)
    requires
        forall|k: int|
            is_member(a, span_start, span_end, k) == is_member(b, span_start, span_end, k),
    ensures
        inner_edges(a, span_start, span_end, successors) == inner_edges(
            b,
            span_start,
            span_end,
            successors,
        ),
        leaves(a, span_start, span_end, successors) == leaves(b, span_start, span_end, successors),
    decreases successors.len(),
{
    if successors.len() > 0 {
        lemma_edges_by_members(a, b, span_start, span_end, successors.drop_last());
    }
    assert forall|k: int| 0 <= k < successors.len() implies is_member(
        a,
        span_start,
        span_end,
        (#[trigger] successors[k]).target as int,
    ) == is_member(b, span_start, span_end, successors[k].target as int) by {}
}

/// What other successors for one block change: its own edges, and nothing
/// else.
proof fn lemma_with_successors(
    graph: Seq<FlowBlockView>,
    span_start: u32,
    span_end: u32,
    i: int,
    successors: Seq<FlowEdge>,
    upto: nat,
)
    requires
        upto <= graph.len(),
        is_member(graph, span_start, span_end, i),
    ensures
        forall|k: int|
            is_member(with_successors(graph, i, successors), span_start, span_end, k) == is_member(
                graph,
                span_start,
                span_end,
                k,
            ),
        member_count(with_successors(graph, i, successors), span_start, span_end, upto)
            == member_count(graph, span_start, span_end, upto),
        member_edges(with_successors(graph, i, successors), span_start, span_end, upto)
            == member_edges(graph, span_start, span_end, upto) + if i < upto {
            edges_of(with_successors(graph, i, successors), span_start, span_end, i) - edges_of(
                graph,
                span_start,
                span_end,
                i,
            )
        } else {
            0
        },
    decreases upto,
{
    let more = with_successors(graph, i, successors);
    assert forall|k: int|
        is_member(more, span_start, span_end, k) == is_member(graph, span_start, span_end, k) by {
        if 0 <= k < graph.len() {
            assert(anchor(more[k]) == anchor(graph[k]));
        }
    }
    if upto > 0 {
        lemma_with_successors(graph, span_start, span_end, i, successors, (upto - 1) as nat);
        lemma_edges_by_members(graph, more, span_start, span_end, graph[upto - 1].successors);
        if upto - 1 != i {
            assert(more[upto - 1] == graph[upto - 1]);
        }
    }
}

/// Where a block leaves the span as before, or the function ends elsewhere
/// too, other successors for it change the complexity by what they add to
/// its edges.
proof fn lemma_complexity_with_successors(
    graph: Seq<FlowBlockView>,
    span_start: u32,
    span_end: u32,
    i: int,
    successors: Seq<FlowEdge>,
)
    requires
        is_member(graph, span_start, span_end, i),
        leaves(graph, span_start, span_end, successors) == leaves(
            graph,
            span_start,
            span_end,
            graph[i].successors,
        ) || (has_exit(graph, span_start, span_end) && !leaves(
            graph,
            span_start,
            span_end,
            graph[i].successors,
        )),
    ensures
        has_exit(with_successors(graph, i, successors), span_start, span_end) == has_exit(
            graph,
            span_start,
            span_end,
        ),
        edges_of(with_successors(graph, i, successors), span_start, span_end, i) == inner_edges(
            graph,
            span_start,
            span_end,
            successors,
        ) + if leaves(graph, span_start, span_end, successors) {
            1nat
        } else {
            0nat
        },
        member_count(graph, span_start, span_end, graph.len()) > 0,
        member_count(
            with_successors(graph, i, successors),
            span_start,
            span_end,
            graph.len(),
        ) == member_count(graph, span_start, span_end, graph.len()),
        member_edges(
            with_successors(graph, i, successors),
            span_start,
            span_end,
            graph.len(),
        ) == member_edges(graph, span_start, span_end, graph.len()) + edges_of(
            with_successors(graph, i, successors),
            span_start,
            span_end,
            i,
        ) - edges_of(graph, span_start, span_end, i),
{
    let more = with_successors(graph, i, successors);
    lemma_with_successors(graph, span_start, span_end, i, successors, graph.len());
    lemma_edges_by_members(graph, more, span_start, span_end, successors);
    lemma_counted(graph, span_start, span_end, i, graph.len());
    assert(more[i].successors == successors);
    assert forall|k: int|
        #![trigger graph[k]]
        #![trigger more[k]]
        0 <= k < graph.len() && k != i implies leaves(
        more,
        span_start,
        span_end,
        more[k].successors,
    ) == leaves(graph, span_start, span_end, graph[k].successors) by {
        lemma_edges_by_members(graph, more, span_start, span_end, more[k].successors);
    }
    if has_exit(graph, span_start, span_end) {
        let k = choose|k: int|
            #![trigger graph[k]]
            is_member(graph, span_start, span_end, k) && leaves(
                graph,
                span_start,
                span_end,
                graph[k].successors,
            );
        assert(is_member(more, span_start, span_end, k));
        assert(leaves(more, span_start, span_end, more[k].successors));
    }
    if has_exit(more, span_start, span_end) {
        let k = choose|k: int|
            #![trigger more[k]]
            is_member(more, span_start, span_end, k) && leaves(
                more,
                span_start,
                span_end,
                more[k].successors,
            );
        assert(is_member(graph, span_start, span_end, k));
        if k != i {
            assert(leaves(graph, span_start, span_end, graph[k].successors));
        }
    }
}

proof fn lemma_counted(
    graph: Seq<FlowBlockView>,
    span_start: u32,
    span_end: u32,
    i: int,
    upto: nat,
)
    requires
        is_member(graph, span_start, span_end, i),
        i < upto <= graph.len(),
    ensures
        member_count(graph, span_start, span_end, upto) > 0,
    decreases upto,
{
    if upto - 1 != i {
        lemma_counted(graph, span_start, span_end, i, (upto - 1) as nat);
    }
}

/// A block that can leave the span already may be given as many more ways
/// out as one likes: the complexity stays what it is.
pub proof fn law_more_ways_out_add_nothing(
    graph: Seq<FlowBlockView>,
    span_start: u32,
    span_end: u32,
    i: int,
    edge: FlowEdge,
)
    requires
        is_member(graph, span_start, span_end, i),
        leaves(graph, span_start, span_end, graph[i].successors),
        !is_member(graph, span_start, span_end, edge.target as int),
    ensures
        cyclomatic(with_edge(graph, i, edge), span_start, span_end) == cyclomatic(
            graph,
            span_start,
            span_end,
        ),
{
    let old_edges = graph[i].successors;
    lemma_one_more_successor(graph, span_start, span_end, old_edges, edge, false);
    lemma_one_more_successor(graph, span_start, span_end, old_edges, edge, true);
    lemma_complexity_with_successors(graph, span_start, span_end, i, old_edges.push(edge));
}

/// That an error may be raised in a block that goes on otherwise adds nothing
/// to the complexity.
pub proof fn law_errors_add_nothing(
    graph: Seq<FlowBlockView>,
    span_start: u32,
    span_end: u32,
    i: int,
    edge: FlowEdge,
)
    requires
        is_member(graph, span_start, span_end, i),
        !only_errors(graph[i].successors),
        edge.on_error,
        !is_member(graph, span_start, span_end, edge.target as int),
    ensures
        cyclomatic(with_edge(graph, i, edge), span_start, span_end) == cyclomatic(
            graph,
            span_start,
            span_end,
        ),
{
    let old_edges = graph[i].successors;
    lemma_one_more_successor(graph, span_start, span_end, old_edges, edge, true);
    lemma_complexity_with_successors(graph, span_start, span_end, i, old_edges.push(edge));
}

/// One more branch inside the span, from a block that goes on already, adds
/// one to the complexity, but where the edges fall so short of the nodes that
/// the floor of one still holds.
pub proof fn law_one_more_branch_adds_one(
    graph: Seq<FlowBlockView>,
    span_start: u32,
    span_end: u32,
    i: int,
    edge: FlowEdge,
)
    requires
        is_member(graph, span_start, span_end, i),
        is_member(graph, span_start, span_end, edge.target as int),
        !only_errors(graph[i].successors),
    ensures
        cyclomatic(with_edge(graph, i, edge), span_start, span_end) >= cyclomatic(
            graph,
            span_start,
            span_end,
        ),
        cyclomatic(graph, span_start, span_end) > 1 ==> cyclomatic(
            with_edge(graph, i, edge),
            span_start,
            span_end,
        ) == cyclomatic(graph, span_start, span_end) + 1,
{
    let old_edges = graph[i].successors;
    lemma_one_more_successor(graph, span_start, span_end, old_edges, edge, true);
    lemma_complexity_with_successors(graph, span_start, span_end, i, old_edges.push(edge));
}

proof fn lemma_inner_edges_of_concat(
    graph: Seq<FlowBlockView>,
    span_start: u32,
    span_end: u32,
    a: Seq<FlowEdge>,
    b: Seq<FlowEdge>,
)
    ensures
        inner_edges(graph, span_start, span_end, a + b) == inner_edges(
            graph,
            span_start,
            span_end,
            a,
        ) + inner_edges(graph, span_start, span_end, b),
    decreases b.len(),
{
    if b.len() == 0 {
        assert(a + b =~= a);
    } else {
        lemma_inner_edges_of_concat(graph, span_start, span_end, a, b.drop_last());
        assert((a + b).drop_last() =~= a + b.drop_last());
    }
}

/// Returning early adds nothing: where a block passed control on inside the
/// span and now leaves it instead, in a function that ends somewhere anyway,
/// the complexity stays what it is.
pub proof fn law_early_returns_add_nothing(
    graph: Seq<FlowBlockView>,
    span_start: u32,
    span_end: u32,
    i: int,
    k: int,
    outside: usize,
)
    requires
        is_member(graph, span_start, span_end, i),
        0 <= k < graph[i].successors.len(),
        !graph[i].successors[k].on_error,
        is_member(graph, span_start, span_end, graph[i].successors[k].target as int),
        !is_member(graph, span_start, span_end, outside as int),
        !leaves(graph, span_start, span_end, graph[i].successors),
        has_exit(graph, span_start, span_end),
    ensures
        cyclomatic(
            with_successors(
                graph,
                i,
                graph[i].successors.update(k, FlowEdge { target: outside, on_error: false }),
            ),
            span_start,
            span_end,
        ) == cyclomatic(graph, span_start, span_end),
{
    let old_edges = graph[i].successors;
    let edge = FlowEdge { target: outside, on_error: false };
    let new_edges = old_edges.update(k, edge);
    assert(new_edges[k] == edge);
    assert(leads_out(graph, span_start, span_end, new_edges, true));
    let before = old_edges.take(k);
    let after = old_edges.skip(k + 1);
    let was = seq![old_edges[k]];
    let now = seq![edge];
    assert(old_edges =~= before + was + after);
    assert(new_edges =~= before + now + after);
    lemma_inner_edges_of_concat(graph, span_start, span_end, before + was, after);
    lemma_inner_edges_of_concat(graph, span_start, span_end, before, was);
    lemma_inner_edges_of_concat(graph, span_start, span_end, before + now, after);
    lemma_inner_edges_of_concat(graph, span_start, span_end, before, now);
    assert(was.drop_last() =~= Seq::empty());
    assert(now.drop_last() =~= Seq::empty());
    lemma_complexity_with_successors(graph, span_start, span_end, i, new_edges);
}

/// The node that an instruction comes from is the first if no earlier one comes
/// from any.
pub proof fn lemma_first_node(instructions: Seq<Option<(u32, u32)>>, k: int)
    requires
        0 <= k < instructions.len(),
        instructions[k] is Some,
        forall|j: int| 0 <= j < k ==> #[trigger] instructions[j] is None,
    ensures
        first_node(instructions) == instructions[k],
    decreases k,
{
    if k > 0 {
        let rest = instructions.drop_first();
        assert(instructions[0] is None);
        assert(rest[k - 1] == instructions[k]);
        assert forall|j: int| 0 <= j < k - 1 implies #[trigger] rest[j] is None by {
            assert(rest[j] == instructions[j + 1]);
        }
        lemma_first_node(rest, k - 1);
    }
}

proof fn lemma_no_first_node(instructions: Seq<Option<(u32, u32)>>)
    requires
        forall|j: int| 0 <= j < instructions.len() ==> #[trigger] instructions[j] is None,
    ensures
        first_node(instructions) is None,
    decreases instructions.len(),
{
    if instructions.len() > 0 {
        let rest = instructions.drop_first();
        assert(instructions[0] is None);
        assert forall|j: int| 0 <= j < rest.len() implies #[trigger] rest[j] is None by {
            assert(rest[j] == instructions[j + 1]);
        }
        lemma_no_first_node(rest);
    }
}

/// A block starts in a span exactly if the first of its instructions that
/// comes from a node comes from one that begins at or after the start of the
/// span and before its end.
pub proof fn law_blocks_start_at_their_first_node(
    graph: Seq<FlowBlockView>,
    span_start: u32,
    span_end: u32,
    i: int,
    k: int,
    node: (u32, u32),
)
    requires
        0 <= i < graph.len(),
        0 <= k < graph[i].instructions.len(),
        graph[i].instructions[k] == Some(node),
        forall|j: int| 0 <= j < k ==> #[trigger] graph[i].instructions[j] is None,
    ensures
        is_member(graph, span_start, span_end, i) <==> span_start <= node.0 < span_end,
{
    lemma_first_node(graph[i].instructions, k);
}

/// A block of which no instruction comes from a node starts in no span.
pub proof fn law_blocks_without_nodes_start_nowhere(
    graph: Seq<FlowBlockView>,
    span_start: u32,
    span_end: u32,
    i: int,
)
    requires
        0 <= i < graph.len(),
        forall|j: int|
            0 <= j < graph[i].instructions.len() ==> #[trigger] graph[i].instructions[j] is None,
    ensures
        !is_member(graph, span_start, span_end, i),
{
    lemma_no_first_node(graph[i].instructions);
}

/// Whether a block that starts in the span passes control on by one way, or
/// decides between two of which at most one leaves the span, and raises no
/// errors.
pub open spec fn is_simple(
    graph: Seq<FlowBlockView>,
    span_start: u32,
    span_end: u32,
    i: int,
) -> bool {
    let ways = graph[i].successors;
    &&& ways.len() == 1 || ways.len() == 2
    &&& forall|k: int| 0 <= k < ways.len() ==> !(#[trigger] ways[k]).on_error
    &&& ways.len() == 2 ==> is_member(graph, span_start, span_end, ways[0].target as int)
        || is_member(graph, span_start, span_end, ways[1].target as int)
}

/// How many of the first `upto` blocks start in the span and decide between
/// two ways.
pub open spec fn decisions(
    graph: Seq<FlowBlockView>,
    span_start: u32,
    span_end: u32,
    upto: nat,
) -> nat
    decreases upto,
{
    if upto == 0 {
        0
    } else {
        let before = decisions(graph, span_start, span_end, (upto - 1) as nat);
        if is_member(graph, span_start, span_end, upto - 1) && graph[upto - 1].successors.len()
            == 2 {
            before + 1
        } else {
            before
        }
    }
}

proof fn lemma_simple_edges(graph: Seq<FlowBlockView>, span_start: u32, span_end: u32, i: int)
    requires
        is_simple(graph, span_start, span_end, i),
    ensures
        edges_of(graph, span_start, span_end, i) == graph[i].successors.len(),
{
    let ways = graph[i].successors;
    reveal_with_fuel(inner_edges, 3);
    assert(!only_errors(ways)) by {
        assert(!ways[0].on_error);
    }
    let first = is_member(graph, span_start, span_end, ways[0].target as int);
    if ways.len() == 1 {
        assert(ways.drop_last() =~= Seq::empty());
        assert(leads_out(graph, span_start, span_end, ways, true) == !first) by {
            if !first {
                assert(!ways[0].on_error);
            }
        }
    } else {
        let second = is_member(graph, span_start, span_end, ways[1].target as int);
        assert(ways.drop_last().last() == ways[0]);
        assert(ways.drop_last().drop_last() =~= Seq::empty());
        assert(leads_out(graph, span_start, span_end, ways, true) == (!first || !second)) by {
            if !first {
                assert(!ways[0].on_error);
            }
            if !second {
                assert(!ways[1].on_error);
            }
        }
    }
}

proof fn lemma_simple_sum(graph: Seq<FlowBlockView>, span_start: u32, span_end: u32, upto: nat)
    requires
        upto <= graph.len(),
        forall|i: int|
            #![trigger graph[i]]
            is_member(graph, span_start, span_end, i) ==> is_simple(
                graph,
                span_start,
                span_end,
                i,
            ),
    ensures
        member_edges(graph, span_start, span_end, upto) == member_count(
            graph,
            span_start,
            span_end,
            upto,
        ) + decisions(graph, span_start, span_end, upto),
    decreases upto,
{
    if upto > 0 {
        lemma_simple_sum(graph, span_start, span_end, (upto - 1) as nat);
        if is_member(graph, span_start, span_end, upto - 1) {
            assert(is_simple(graph, span_start, span_end, upto - 1)) by {
                let _block = graph[upto - 1];
            }
            lemma_simple_edges(graph, span_start, span_end, upto - 1);
        }
    }
}

/// Complexity is the number of decisions plus one: in a function that ends
/// somewhere, where every block goes on by one way or decides between two, it
/// is one more than the number of blocks that decide, however many blocks and
/// returns there are.
pub proof fn law_complexity_counts_decisions(
    graph: Seq<FlowBlockView>,
    span_start: u32,
    span_end: u32,
    last: int,
    way: int,
)
    requires
        forall|i: int|
            #![trigger graph[i]]
            is_member(graph, span_start, span_end, i) ==> is_simple(
                graph,
                span_start,
                span_end,
                i,
            ),
        is_member(graph, span_start, span_end, last),
        0 <= way < graph[last].successors.len(),
        !is_member(graph, span_start, span_end, graph[last].successors[way].target as int),
    ensures
        cyclomatic(graph, span_start, span_end) == decisions(
            graph,
            span_start,
            span_end,
            graph.len(),
        ) + 1,
{
    let ways = graph[last].successors;
    lemma_simple_sum(graph, span_start, span_end, graph.len());
    lemma_counted(graph, span_start, span_end, last, graph.len());
    assert(is_simple(graph, span_start, span_end, last));
    assert(!ways[way].on_error);
    assert(leads_out(graph, span_start, span_end, ways, true));
    assert(has_exit(graph, span_start, span_end));
}

/// Whether every block of a graph is in the span.
pub open spec fn all_inside(graph: Seq<FlowBlockView>, span_start: u32, span_end: u32) -> bool {
    forall|i: int| 0 <= i < graph.len() ==> #[trigger] is_member(graph, span_start, span_end, i)
}

/// A chain has complexity one, however long it is: each block leads to the
/// next, and the last one out of the span.
pub proof fn law_chains_have_complexity_one(
    graph: Seq<FlowBlockView>,
    span_start: u32,
    span_end: u32,
)
    requires
        graph.len() > 0,
        all_inside(graph, span_start, span_end),
        forall|i: int|
            #![trigger graph[i]]
            0 <= i < graph.len() ==> graph[i].successors.len() == 1
                && !graph[i].successors[0].on_error && graph[i].successors[0].target == i + 1,
    ensures
        cyclomatic(graph, span_start, span_end) == 1,
{
    let last = graph.len() - 1;
    assert(is_member(graph, span_start, span_end, last));
    assert(graph[last].successors[0].target == graph.len());
    lemma_no_decisions(graph, span_start, span_end, graph.len());
    law_complexity_counts_decisions(graph, span_start, span_end, last, 0);
}

proof fn lemma_no_decisions(graph: Seq<FlowBlockView>, span_start: u32, span_end: u32, upto: nat)
    requires
        upto <= graph.len(),
        forall|i: int|
            #![trigger graph[i]]
            0 <= i < graph.len() ==> graph[i].successors.len() == 1,
    ensures
        decisions(graph, span_start, span_end, upto) == 0,
    decreases upto,
{
    if upto > 0 {
        lemma_no_decisions(graph, span_start, span_end, (upto - 1) as nat);
        assert(graph[upto - 1].successors.len() == 1);
    }
}

proof fn lemma_ladder_decisions(
    graph: Seq<FlowBlockView>,
    span_start: u32,
    span_end: u32,
    branches: nat,
    upto: nat,
)
    requires
        graph.len() == 2 * branches + 1,
        upto <= branches,
        all_inside(graph, span_start, span_end),
        forall|i: int|
            #![trigger graph[2 * i]]
            0 <= i < branches ==> graph[2 * i].successors.len() == 2,
        forall|i: int|
            #![trigger graph[2 * i + 1]]
            0 <= i < branches ==> graph[2 * i + 1].successors.len() == 1,
    ensures
        decisions(graph, span_start, span_end, 2 * upto) == upto,
    decreases upto,
{
    if upto > 0 {
        let i = upto - 1;
        lemma_ladder_decisions(graph, span_start, span_end, branches, i as nat);
        reveal_with_fuel(decisions, 3);
        assert(graph[2 * i].successors.len() == 2);
        assert(graph[2 * i + 1].successors.len() == 1);
        assert(is_member(graph, span_start, span_end, 2 * i));
        assert(is_member(graph, span_start, span_end, 2 * i + 1));
    }
}

/// A run of `n` branches has complexity `n + 1`, however many blocks that
/// makes: of each branch, the deciding block leads to what is done in one case
/// and past it, and both join again; the last block leads out of the span.
pub proof fn law_runs_of_branches(
    graph: Seq<FlowBlockView>,
    span_start: u32,
    span_end: u32,
    branches: nat,
)
    requires
        graph.len() == 2 * branches + 1,
        all_inside(graph, span_start, span_end),
        forall|i: int|
            #![trigger graph[2 * i]]
            0 <= i < branches ==> graph[2 * i].successors == seq![
                FlowEdge { target: (2 * i + 1) as usize, on_error: false },
                FlowEdge { target: (2 * i + 2) as usize, on_error: false },
            ],
        forall|i: int|
            #![trigger graph[2 * i + 1]]
            0 <= i < branches ==> graph[2 * i + 1].successors == seq![
                FlowEdge { target: (2 * i + 2) as usize, on_error: false },
            ],
        graph[2 * branches as int].successors == seq![
            FlowEdge { target: graph.len() as usize, on_error: false },
        ],
        graph.len() <= usize::MAX,
    ensures
        cyclomatic(graph, span_start, span_end) == branches + 1,
{
    let last = 2 * branches as int;
    assert forall|i: int|
        #![trigger graph[i]]
        is_member(graph, span_start, span_end, i) implies is_simple(
        graph,
        span_start,
        span_end,
        i,
    ) by {
        let half = i / 2;
        if i != last {
            if i == 2 * half {
                assert(graph[2 * half].successors.len() == 2);
                assert(is_member(graph, span_start, span_end, 2 * half + 1));
            } else {
                assert(i == 2 * half + 1);
                assert(graph[2 * half + 1].successors.len() == 1);
            }
        }
    }
    assert(is_member(graph, span_start, span_end, last));
    assert(graph[last].successors[0].target == graph.len());
    lemma_ladder_decisions(graph, span_start, span_end, branches, branches);
    law_complexity_counts_decisions(graph, span_start, span_end, last, 0);
    assert(decisions(graph, span_start, span_end, graph.len()) == branches);
}

/// The graph with block `i` cut in two: the first half leads only to the
/// second, which is `rest` with the old successors and stands at the end.
pub open spec fn with_split(
    graph: Seq<FlowBlockView>,
    i: int,
    rest: FlowBlockView,
) -> Seq<FlowBlockView> {
    with_successors(
        graph,
        i,
        seq![FlowEdge { target: graph.len() as usize, on_error: false }],
    ).push(FlowBlockView { successors: graph[i].successors, ..rest })
}

/// Whether every edge of a graph leads to a block of it.
pub open spec fn is_closed(graph: Seq<FlowBlockView>) -> bool {
    forall|i: int, k: int|
        #![trigger graph[i].successors[k]]
        0 <= i < graph.len() && 0 <= k < graph[i].successors.len()
            ==> graph[i].successors[k].target < graph.len()
}

proof fn lemma_edges_by_few_members(
    a: Seq<FlowBlockView>,
    b: Seq<FlowBlockView>,
    span_start: u32,
    span_end: u32,
    successors: Seq<FlowEdge>,
)
    requires
        forall|k: int|
            0 <= k < successors.len() ==> is_member(
                a,
                span_start,
                span_end,
                (#[trigger] successors[k]).target as int,
            ) == is_member(b, span_start, span_end, successors[k].target as int),
    ensures
        inner_edges(a, span_start, span_end, successors) == inner_edges(
            b,
            span_start,
            span_end,
            successors,
        ),
        leaves(a, span_start, span_end, successors) == leaves(b, span_start, span_end, successors),
    decreases successors.len(),
{
    if successors.len() > 0 {
        let init = successors.drop_last();
        assert forall|k: int| 0 <= k < init.len() implies is_member(
            a,
            span_start,
            span_end,
            (#[trigger] init[k]).target as int,
        ) == is_member(b, span_start, span_end, init[k].target as int) by {
            assert(init[k] == successors[k]);
        }
        lemma_edges_by_few_members(a, b, span_start, span_end, init);
        assert(successors.last() == successors[successors.len() - 1]);
    }
}

proof fn lemma_split_sums(
    graph: Seq<FlowBlockView>,
    span_start: u32,
    span_end: u32,
    i: int,
    rest: FlowBlockView,
    upto: nat,
)
    requires
        is_closed(graph),
        is_member(graph, span_start, span_end, i),
        anchor(rest) matches Some((at, _)) && span_start <= at < span_end,
        graph.len() <= usize::MAX,
        upto <= graph.len(),
    ensures
        member_count(with_split(graph, i, rest), span_start, span_end, upto) == member_count(
            graph,
            span_start,
            span_end,
            upto,
        ),
        member_edges(with_split(graph, i, rest), span_start, span_end, upto) == member_edges(
            graph,
            span_start,
            span_end,
            upto,
        ) + if i < upto {
            1 - edges_of(graph, span_start, span_end, i)
        } else {
            0
        },
    decreases upto,
{
    let more = with_split(graph, i, rest);
    if upto > 0 {
        let k = upto - 1;
        lemma_split_sums(graph, span_start, span_end, i, rest, k as nat);
        lemma_split_members(graph, span_start, span_end, i, rest);
        assert(is_member(more, span_start, span_end, k) == is_member(
            graph,
            span_start,
            span_end,
            k,
        ));
        if k == i {
            let ways = more[i].successors;
            reveal_with_fuel(inner_edges, 2);
            assert(ways.drop_last() =~= Seq::empty());
            assert(ways[0].target == graph.len());
            assert(is_member(more, span_start, span_end, graph.len() as int));
            assert(!leads_out(more, span_start, span_end, ways, true));
            assert(!only_errors(ways)) by {
                assert(!ways[0].on_error);
            }
        } else {
            assert(more[k] == graph[k]);
            lemma_split_block(graph, span_start, span_end, i, rest, k);
        }
    }
}

proof fn lemma_split_members(
    graph: Seq<FlowBlockView>,
    span_start: u32,
    span_end: u32,
    i: int,
    rest: FlowBlockView,
)
    requires
        is_member(graph, span_start, span_end, i),
        anchor(rest) matches Some((at, _)) && span_start <= at < span_end,
    ensures
        forall|k: int|
            k != graph.len() ==> #[trigger] is_member(
                with_split(graph, i, rest),
                span_start,
                span_end,
                k,
            ) == is_member(graph, span_start, span_end, k),
        is_member(with_split(graph, i, rest), span_start, span_end, graph.len() as int),
{
    let more = with_split(graph, i, rest);
    assert forall|k: int| k != graph.len() implies #[trigger] is_member(
        more,
        span_start,
        span_end,
        k,
    ) == is_member(graph, span_start, span_end, k) by {
        if 0 <= k < graph.len() {
            assert(anchor(more[k]) == anchor(graph[k]));
        }
    }
}

proof fn lemma_split_block(
    graph: Seq<FlowBlockView>,
    span_start: u32,
    span_end: u32,
    i: int,
    rest: FlowBlockView,
    k: int,
)
    requires
        is_closed(graph),
        is_member(graph, span_start, span_end, i),
        anchor(rest) matches Some((at, _)) && span_start <= at < span_end,
        0 <= k < graph.len(),
    ensures
        inner_edges(with_split(graph, i, rest), span_start, span_end, graph[k].successors)
            == inner_edges(graph, span_start, span_end, graph[k].successors),
        leaves(with_split(graph, i, rest), span_start, span_end, graph[k].successors) == leaves(
            graph,
            span_start,
            span_end,
            graph[k].successors,
        ),
{
    let more = with_split(graph, i, rest);
    let ways = graph[k].successors;
    lemma_split_members(graph, span_start, span_end, i, rest);
    assert forall|j: int| 0 <= j < ways.len() implies is_member(
        more,
        span_start,
        span_end,
        (#[trigger] ways[j]).target as int,
    ) == is_member(graph, span_start, span_end, ways[j].target as int) by {
        assert(graph[k].successors[j].target < graph.len());
    }
    lemma_edges_by_few_members(more, graph, span_start, span_end, ways);
}

/// Cutting a block in two leaves the complexity as it is: how many blocks a
/// straight piece of code makes does not count.
pub proof fn law_cutting_a_block_changes_nothing(
    graph: Seq<FlowBlockView>,
    span_start: u32,
    span_end: u32,
    i: int,
    rest: FlowBlockView,
)
    requires
        is_closed(graph),
        is_member(graph, span_start, span_end, i),
        anchor(rest) matches Some((at, _)) && span_start <= at < span_end,
        graph.len() < usize::MAX,
    ensures
        cyclomatic(with_split(graph, i, rest), span_start, span_end) == cyclomatic(
            graph,
            span_start,
            span_end,
        ),
{
    let more = with_split(graph, i, rest);
    let n = graph.len();
    lemma_split_members(graph, span_start, span_end, i, rest);
    lemma_split_sums(graph, span_start, span_end, i, rest, n);
    lemma_split_block(graph, span_start, span_end, i, rest, i);
    lemma_counted(graph, span_start, span_end, i, n);
    assert(more[n as int].successors == graph[i].successors);
    assert(more.len() == n + 1);
    if has_exit(graph, span_start, span_end) {
        let k = choose|k: int|
            #![trigger graph[k]]
            is_member(graph, span_start, span_end, k) && leaves(
                graph,
                span_start,
                span_end,
                graph[k].successors,
            );
        lemma_split_block(graph, span_start, span_end, i, rest, k);
        if k == i {
            let _half = more[n as int];
            assert(leaves(more, span_start, span_end, more[n as int].successors));
        } else {
            assert(more[k] == graph[k]);
            assert(is_member(more, span_start, span_end, k));
        }
        assert(has_exit(more, span_start, span_end));
    }
    if has_exit(more, span_start, span_end) {
        let k = choose|k: int|
            #![trigger more[k]]
            is_member(more, span_start, span_end, k) && leaves(
                more,
                span_start,
                span_end,
                more[k].successors,
            );
        if k == n {
            assert(leaves(graph, span_start, span_end, graph[i].successors));
        } else if k == i {
            let ways = more[i].successors;
            assert(ways[0].target == n);
            assert(!leads_out(more, span_start, span_end, ways, true));
            assert(!leads_out(more, span_start, span_end, ways, false));
        } else {
            assert(more[k] == graph[k]);
            lemma_split_block(graph, span_start, span_end, i, rest, k);
            assert(is_member(graph, span_start, span_end, k));
        }
        assert(has_exit(graph, span_start, span_end));
    }
}

/// A block that can only end in an error leaves the function as one that
/// returns does.
pub proof fn law_throwing_is_leaving(
    graph: Seq<FlowBlockView>,
    span_start: u32,
    span_end: u32,
    i: int,
    outside: usize,
)
    requires
        is_member(graph, span_start, span_end, i),
        graph[i].successors == seq![FlowEdge { target: outside, on_error: false }],
        !is_member(graph, span_start, span_end, outside as int),
    ensures
        cyclomatic(
            with_successors(graph, i, seq![FlowEdge { target: outside, on_error: true }]),
            span_start,
            span_end,
        ) == cyclomatic(graph, span_start, span_end),
{
    let ends = seq![FlowEdge { target: outside, on_error: false }];
    let throws = seq![FlowEdge { target: outside, on_error: true }];
    assert(!only_errors(ends)) by {
        assert(!ends[0].on_error);
    }
    assert(leads_out(graph, span_start, span_end, ends, true)) by {
        assert(!ends[0].on_error);
    }
    assert(leads_out(graph, span_start, span_end, throws, false)) by {
        assert(throws[0].on_error);
    }
    reveal_with_fuel(inner_edges, 2);
    assert(ends.drop_last() =~= Seq::empty());
    assert(throws.drop_last() =~= Seq::empty());
    lemma_complexity_with_successors(graph, span_start, span_end, i, throws);
}

/// What lies outside the span makes no difference: other blocks may have any
/// edges.
pub proof fn law_other_functions_make_no_difference(
    graph: Seq<FlowBlockView>,
    span_start: u32,
    span_end: u32,
    i: int,
    successors: Seq<FlowEdge>,
)
    requires
        0 <= i < graph.len(),
        !is_member(graph, span_start, span_end, i),
    ensures
        cyclomatic(with_successors(graph, i, successors), span_start, span_end) == cyclomatic(
            graph,
            span_start,
            span_end,
        ),
{
    let more = with_successors(graph, i, successors);
    lemma_outside_sums(graph, span_start, span_end, i, successors, graph.len());
    assert forall|k: int|
        #![trigger graph[k]]
        #![trigger more[k]]
        is_member(graph, span_start, span_end, k) implies leaves(
        more,
        span_start,
        span_end,
        more[k].successors,
    ) == leaves(graph, span_start, span_end, graph[k].successors) by {
        assert(more[k] == graph[k]);
        lemma_edges_by_members(more, graph, span_start, span_end, graph[k].successors);
    }
    if has_exit(graph, span_start, span_end) {
        let k = choose|k: int|
            #![trigger graph[k]]
            is_member(graph, span_start, span_end, k) && leaves(
                graph,
                span_start,
                span_end,
                graph[k].successors,
            );
        assert(is_member(more, span_start, span_end, k) && leaves(
            more,
            span_start,
            span_end,
            more[k].successors,
        ));
    }
    if has_exit(more, span_start, span_end) {
        let k = choose|k: int|
            #![trigger more[k]]
            is_member(more, span_start, span_end, k) && leaves(
                more,
                span_start,
                span_end,
                more[k].successors,
            );
        assert(is_member(graph, span_start, span_end, k) && leaves(
            graph,
            span_start,
            span_end,
            graph[k].successors,
        ));
    }
}

proof fn lemma_outside_sums(
    graph: Seq<FlowBlockView>,
    span_start: u32,
    span_end: u32,
    i: int,
    successors: Seq<FlowEdge>,
    upto: nat,
)
    requires
        0 <= i < graph.len(),
        !is_member(graph, span_start, span_end, i),
        upto <= graph.len(),
    ensures
        forall|k: int|
            is_member(with_successors(graph, i, successors), span_start, span_end, k) == is_member(
                graph,
                span_start,
                span_end,
                k,
            ),
        member_count(with_successors(graph, i, successors), span_start, span_end, upto)
            == member_count(graph, span_start, span_end, upto),
        member_edges(with_successors(graph, i, successors), span_start, span_end, upto)
            == member_edges(graph, span_start, span_end, upto),
    decreases upto,
{
    let more = with_successors(graph, i, successors);
    assert forall|k: int|
        is_member(more, span_start, span_end, k) == is_member(graph, span_start, span_end, k) by {
        if 0 <= k < graph.len() {
            assert(anchor(more[k]) == anchor(graph[k]));
        }
    }
    if upto > 0 {
        lemma_outside_sums(graph, span_start, span_end, i, successors, (upto - 1) as nat);
        if upto - 1 != i {
            assert(more[upto - 1] == graph[upto - 1]);
            lemma_edges_by_members(more, graph, span_start, span_end, graph[upto - 1].successors);
        }
    }
}

} // verus!
