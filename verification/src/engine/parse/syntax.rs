//! The syntax tree of a source file, as far as the analysis looks at it.
//!
//! A tree arrives as the events of a walk over it: each node is entered, what
//! stands below it is walked, and it is left again. `assemble` puts the tree
//! together from them.
use vstd::prelude::*;

verus! {

/// By what a method is named.
pub enum MethodKey<S> {
    /// A plain name.
    Static(S),
    /// A private name, without its `#`.
    Private(S),
    /// Anything else, such as a computed expression.
    Computed,
}

/// What sort of method a definition makes.
#[derive(Debug, Clone, Copy, PartialEq, Eq, Structural)]
pub enum MethodKind {
    Constructor,
    Method,
    Getter,
    Setter,
}

/// What a module exports by default.
pub enum DefaultExport<S> {
    /// A function or class declared in place, with its name.
    Declared(Option<S>),
    /// A name bound elsewhere.
    Binding(S),
    /// An object literal.
    Object,
    /// Anything else.
    Other,
}

/// What a node of the tree is. `S` stands for text.
#[allow(inconsistent_fields)]
pub enum NodeKind<S> {
    Function { name: Option<S> },
    FunctionBody,
    ArrowFunction,
    /// `superclass` is present where the class extends a plain identifier.
    Class { name: Option<S>, superclass: Option<S> },
    ClassBody,
    Method { key: MethodKey<S>, kind: MethodKind },
    Interface { name: S },
    TypeAlias { name: S },
    Enum { name: S },
    VariableDeclaration,
    /// `name` is absent where a pattern is destructured.
    VariableDeclarator { name: Option<S> },
    /// `callee` is present where a plain identifier is called.
    Call { callee: Option<S> },
    Import { source: S, type_only: bool },
    /// `imported` is absent for default and namespace imports.
    ImportBinding { local: S, imported: Option<S> },
    /// The declaration, where there is one, is the first child.
    ExportNamed { source: Option<S>, type_only: bool, has_declaration: bool },
    ExportSpecifier { local: S },
    ExportAll { source: S, type_only: bool },
    /// What is exported is the first child.
    ExportDefault { form: DefaultExport<S> },
    Object,
    /// `value` is present where the value is a plain identifier, `key` where
    /// the key is a plain name.
    ObjectProperty { value: Option<S>, key: Option<S> },
    /// Any other node.
    Other,
}

/// One step of a walk over a tree.
pub enum NodeEvent<S> {
    /// A node is entered; it covers the source from `span_start` up to
    /// `span_end`.
    Enter { kind: NodeKind<S>, span_start: u32, span_end: u32 },
    /// The node entered last and not yet left is left.
    Leave,
}

/// A node of a tree with what stands below it, in source order.
pub struct AstNode {
    pub kind: NodeKind<String>,
    pub span_start: u32,
    pub span_end: u32,
    pub children: Vec<AstNode>,
}

/// The tree of a source file: its statements, in order.
pub struct Program {
    pub body: Vec<AstNode>,
}

/// An `AstNode` by its characters.
pub struct Node {
    pub kind: NodeKind<Seq<char>>,
    pub span_start: u32,
    pub span_end: u32,
    pub children: Seq<Node>,
}

/// A method key by its characters.
pub open spec fn key_view(key: MethodKey<String>) -> MethodKey<Seq<char>> {
    match key {
        MethodKey::Static(name) => MethodKey::Static(name@),
        MethodKey::Private(name) => MethodKey::Private(name@),
        MethodKey::Computed => MethodKey::Computed,
    }
}

/// A default export by its characters.
pub open spec fn form_view(form: DefaultExport<String>) -> DefaultExport<Seq<char>> {
    match form {
        DefaultExport::Declared(name) => DefaultExport::Declared(crate::text::opt_view(name)),
        DefaultExport::Binding(name) => DefaultExport::Binding(name@),
        DefaultExport::Object => DefaultExport::Object,
        DefaultExport::Other => DefaultExport::Other,
    }
}

/// A node kind by its characters.
pub open spec fn kind_view(kind: NodeKind<String>) -> NodeKind<Seq<char>> {
    match kind {
        NodeKind::Function { name } => NodeKind::Function { name: crate::text::opt_view(name) },
        NodeKind::FunctionBody => NodeKind::FunctionBody,
        NodeKind::ArrowFunction => NodeKind::ArrowFunction,
        NodeKind::Class { name, superclass } => NodeKind::Class {
            name: crate::text::opt_view(name),
            superclass: crate::text::opt_view(superclass),
        },
        NodeKind::ClassBody => NodeKind::ClassBody,
        NodeKind::Method { key, kind } => NodeKind::Method { key: key_view(key), kind },
        NodeKind::Interface { name } => NodeKind::Interface { name: name@ },
        NodeKind::TypeAlias { name } => NodeKind::TypeAlias { name: name@ },
        NodeKind::Enum { name } => NodeKind::Enum { name: name@ },
        NodeKind::VariableDeclaration => NodeKind::VariableDeclaration,
        NodeKind::VariableDeclarator { name } => NodeKind::VariableDeclarator {
            name: crate::text::opt_view(name),
        },
        NodeKind::Call { callee } => NodeKind::Call { callee: crate::text::opt_view(callee) },
        NodeKind::Import { source, type_only } => NodeKind::Import { source: source@, type_only },
        NodeKind::ImportBinding { local, imported } => NodeKind::ImportBinding {
            local: local@,
            imported: crate::text::opt_view(imported),
        },
        NodeKind::ExportNamed { source, type_only, has_declaration } => NodeKind::ExportNamed {
            source: crate::text::opt_view(source),
            type_only,
            has_declaration,
        },
        NodeKind::ExportSpecifier { local } => NodeKind::ExportSpecifier { local: local@ },
        NodeKind::ExportAll { source, type_only } => NodeKind::ExportAll {
            source: source@,
            type_only,
        },
        NodeKind::ExportDefault { form } => NodeKind::ExportDefault { form: form_view(form) },
        NodeKind::Object => NodeKind::Object,
        NodeKind::ObjectProperty { value, key } => NodeKind::ObjectProperty {
            value: crate::text::opt_view(value),
            key: crate::text::opt_view(key),
        },
        NodeKind::Other => NodeKind::Other,
    }
}

/// An event by its characters.
pub open spec fn event_view(event: NodeEvent<String>) -> NodeEvent<Seq<char>> {
    match event {
        NodeEvent::Enter { kind, span_start, span_end } => NodeEvent::Enter {
            kind: kind_view(kind),
            span_start,
            span_end,
        },
        NodeEvent::Leave => NodeEvent::Leave,
    }
}

/// Events by their characters.
pub open spec fn events_view(events: Seq<NodeEvent<String>>) -> Seq<NodeEvent<Seq<char>>> {
    events.map_values(|e: NodeEvent<String>| event_view(e))
}

/// A node by its characters.
pub open spec fn node_view(node: AstNode) -> Node
    decreases node,
{
    Node {
        kind: kind_view(node.kind),
        span_start: node.span_start,
        span_end: node.span_end,
        children: nodes_view(node.children@),
    }
}

/// Nodes by their characters.
pub open spec fn nodes_view(nodes: Seq<AstNode>) -> Seq<Node>
    decreases nodes,
{
    if nodes.len() == 0 {
        Seq::empty()
    } else {
        nodes_view(nodes.drop_last()).push(node_view(nodes.last()))
    }
}

impl View for AstNode {
    type V = Node;

    open spec fn view(&self) -> Node {
        node_view(*self)
    }
}

impl View for Program {
    type V = Seq<Node>;

    open spec fn view(&self) -> Seq<Node> {
        nodes_view(self.body@)
    }
}

/// `nodes_view` takes each node by its characters, in place.
pub proof fn lemma_nodes_view(nodes: Seq<AstNode>)
    ensures
        nodes_view(nodes).len() == nodes.len(),
        forall|i: int| 0 <= i < nodes.len() ==> #[trigger] nodes_view(nodes)[i] == nodes[i]@,
    decreases nodes.len(),
{
    if nodes.len() > 0 {
        lemma_nodes_view(nodes.drop_last());
        assert forall|i: int| 0 <= i < nodes.len() implies #[trigger] nodes_view(nodes)[i]
            == nodes[i]@ by {
            if i < nodes.len() - 1 {
                assert(nodes_view(nodes.drop_last())[i] == nodes.drop_last()[i]@);
            }
        }
    }
}

/// The view of a row with one more node.
proof fn lemma_nodes_view_push(nodes: Seq<AstNode>, node: AstNode)
    ensures
        nodes_view(nodes.push(node)) == nodes_view(nodes).push(node@),
{
    assert(nodes.push(node).drop_last() =~= nodes);
}

/// A walk on its way: the trees that are complete, and the nodes that were
/// entered and not yet left, the outermost first, each with the children that
/// it has so far.
pub struct Walk {
    pub done: Seq<Node>,
    pub open: Seq<Node>,
}

/// `node` with one more child.
pub open spec fn with_child(node: Node, child: Node) -> Node {
    Node { children: node.children.push(child), ..node }
}

/// The walk after one more event. A `Leave` with nothing to leave is passed
/// over.
pub open spec fn advance(walk: Walk, event: NodeEvent<Seq<char>>) -> Walk {
    match event {
        NodeEvent::Enter { kind, span_start, span_end } => Walk {
            done: walk.done,
            open: walk.open.push(Node { kind, span_start, span_end, children: Seq::empty() }),
        },
        NodeEvent::Leave => if walk.open.len() == 0 {
            walk
        } else if walk.open.len() == 1 {
            Walk { done: walk.done.push(walk.open[0]), open: Seq::empty() }
        } else {
            let rest = walk.open.drop_last();
            Walk {
                done: walk.done,
                open: rest.drop_last().push(with_child(rest.last(), walk.open.last())),
            }
        },
    }
}

/// A walk continued by `events`.
pub open spec fn walked(start: Walk, events: Seq<NodeEvent<Seq<char>>>) -> Walk
    decreases events.len(),
{
    if events.len() == 0 {
        start
    } else {
        advance(walked(start, events.drop_last()), events.last())
    }
}

/// The trees that `events` walk over.
pub open spec fn forest(events: Seq<NodeEvent<Seq<char>>>) -> Seq<Node> {
    walked(Walk { done: Seq::empty(), open: Seq::empty() }, events).done
}

/// What stands below the root of the one tree that `events` walk over.
pub open spec fn program_of(events: Seq<NodeEvent<Seq<char>>>) -> Seq<Node> {
    if forest(events).len() == 1 {
        forest(events)[0].children
    } else {
        Seq::empty()
    }
}

/// Puts together the trees that `events` walk over.
pub fn assemble(events: Vec<NodeEvent<String>>) -> (nodes: Vec<AstNode>)
    ensures
        nodes_view(nodes@) == forest(events_view(events@)),
{
    let ghost all = events_view(events@);
    let ghost start = Walk { done: Seq::empty(), open: Seq::empty() };
    let mut done: Vec<AstNode> = Vec::new();
    let mut open: Vec<AstNode> = Vec::new();
    for event in it: events
        invariant
            it.seq() == events@,
            all == events_view(events@),
            start == (Walk { done: Seq::empty(), open: Seq::empty() }),
            walked(start, all.take(it.index())) == (Walk {
                done: nodes_view(done@),
                open: nodes_view(open@),
            }),
    {
        proof {
            assert(all.take(it.index() + 1).drop_last() =~= all.take(it.index()));
            assert(all[it.index()] == event_view(event));
            lemma_nodes_view(open@);
        }
        match event {
            NodeEvent::Enter { kind, span_start, span_end } => {
                let node = AstNode { kind, span_start, span_end, children: Vec::new() };
                proof {
                    lemma_nodes_view_push(open@, node);
                }
                open.push(node);
            },
            NodeEvent::Leave => {
                let ghost before = open@;
                match open.pop() {
                    None => {},
                    Some(node) => {
                        let ghost rest = open@;
                        proof {
                            lemma_nodes_view(rest);
                            assert(before.drop_last() =~= rest);
                            assert(nodes_view(before).drop_last() =~= nodes_view(rest));
                        }
                        match open.pop() {
                            None => {
                                proof {
                                    lemma_nodes_view_push(done@, node);
                                }
                                done.push(node);
                                assert(nodes_view(open@) =~= Seq::<Node>::empty());
                            },
                            Some(parent) => {
                                let mut parent = parent;
                                proof {
                                    lemma_nodes_view_push(parent.children@, node);
                                }
                                parent.children.push(node);
                                proof {
                                    lemma_nodes_view(open@);
                                    lemma_nodes_view_push(open@, parent);
                                    assert(rest.drop_last() =~= open@);
                                    assert(nodes_view(rest).drop_last() =~= nodes_view(open@));
                                }
                                open.push(parent);
                            },
                        }
                    },
                }
            },
        }
    }
    assert(all.take(all.len() as int) =~= all);
    done
}

/// Puts together the program that `events` walk over.
pub fn assemble_program(events: Vec<NodeEvent<String>>) -> (program: Program)
    ensures
        program@ == program_of(events_view(events@)),
{
    let mut roots = assemble(events);
    proof {
        lemma_nodes_view(roots@);
    }
    if roots.len() == 1 {
        match roots.pop() {
            Some(root) => Program { body: root.children },
            None => Program { body: Vec::new() },
        }
    } else {
        Program { body: Vec::new() }
    }
}

/// The events of a walk over `node`.
pub open spec fn node_events(node: Node) -> Seq<NodeEvent<Seq<char>>>
    decreases node,
{
    seq![
        NodeEvent::Enter {
            kind: node.kind,
            span_start: node.span_start,
            span_end: node.span_end,
        },
    ] + tree_events(node.children) + seq![NodeEvent::Leave]
}

/// The events of a walk over `nodes`, one after another.
pub open spec fn tree_events(nodes: Seq<Node>) -> Seq<NodeEvent<Seq<char>>>
    decreases nodes,
{
    if nodes.len() == 0 {
        Seq::empty()
    } else {
        tree_events(nodes.drop_last()) + node_events(nodes.last())
    }
}

proof fn lemma_walked_in_two(
    start: Walk,
    a: Seq<NodeEvent<Seq<char>>>,
    b: Seq<NodeEvent<Seq<char>>>,
)
    ensures
        walked(start, a + b) == walked(walked(start, a), b),
    decreases b.len(),
{
    if b.len() == 0 {
        assert(a + b =~= a);
    } else {
        assert((a + b).drop_last() =~= a + b.drop_last());
        lemma_walked_in_two(start, a, b.drop_last());
    }
}

/// A walk with `node` added where it stands: below the innermost open node,
/// or to the complete trees.
spec fn attach(walk: Walk, nodes: Seq<Node>) -> Walk {
    if walk.open.len() == 0 {
        Walk { done: walk.done + nodes, open: walk.open }
    } else {
        let last = walk.open.last();
        Walk {
            done: walk.done,
            open: walk.open.drop_last().push(
                Node { children: last.children + nodes, ..last },
            ),
        }
    }
}

proof fn lemma_walk_over_node(start: Walk, node: Node)
    ensures
        walked(start, node_events(node)) == attach(start, seq![node]),
    decreases node,
{
    let enter = seq![
        NodeEvent::Enter {
            kind: node.kind,
            span_start: node.span_start,
            span_end: node.span_end,
        },
    ];
    let below = tree_events(node.children);
    let leave = seq![NodeEvent::<Seq<char>>::Leave];
    let bare = Node { children: Seq::empty(), ..node };
    let entered = Walk { done: start.done, open: start.open.push(bare) };
    assert(enter.drop_last() =~= Seq::empty());
    assert(walked(start, enter.drop_last()) == start);
    assert(walked(start, enter) == entered);
    lemma_walk_over_nodes(entered, node.children);
    assert(start.open.push(bare).drop_last() =~= start.open);
    assert(Seq::<Node>::empty() + node.children =~= node.children);
    let full = Walk { done: start.done, open: start.open.push(node) };
    assert(attach(entered, node.children) == full);
    lemma_walked_in_two(start, enter, below);
    lemma_walked_in_two(start, enter + below, leave);
    assert(leave.drop_last() =~= Seq::empty());
    assert(walked(full, leave.drop_last()) == full);
    assert(walked(full, leave) == advance(full, NodeEvent::Leave));
    assert(full.open.drop_last() =~= start.open);
    if start.open.len() == 0 {
        assert(start.done + seq![node] =~= start.done.push(node));
        assert(start.open =~= Seq::empty());
    } else {
        let last = start.open.last();
        assert(last.children + seq![node] =~= last.children.push(node));
    }
}

proof fn lemma_walk_over_nodes(start: Walk, nodes: Seq<Node>)
    ensures
        walked(start, tree_events(nodes)) == attach(start, nodes),
    decreases nodes,
{
    if nodes.len() == 0 {
        if start.open.len() == 0 {
            assert(start.done + nodes =~= start.done);
        } else {
            let last = start.open.last();
            assert(last.children + nodes =~= last.children);
            assert(start.open.drop_last().push(last) =~= start.open);
        }
    } else {
        let init = nodes.drop_last();
        lemma_walk_over_nodes(start, init);
        let middle = attach(start, init);
        lemma_walk_over_node(middle, nodes.last());
        lemma_walked_in_two(start, tree_events(init), node_events(nodes.last()));
        assert(init.push(nodes.last()) =~= nodes);
        if start.open.len() == 0 {
            assert(start.done + init + seq![nodes.last()] =~= start.done + nodes);
        } else {
            let last = start.open.last();
            assert(last.children + init + seq![nodes.last()] =~= last.children + nodes);
            assert(middle.open.drop_last() =~= start.open.drop_last());
        }
    }
}

/// Assembling the events of a walk gives back the trees that were walked:
/// whatever they are, nothing is lost, doubled or put in another place.
pub proof fn law_assembly_undoes_walk(nodes: Seq<Node>)
    ensures
        forest(tree_events(nodes)) == nodes,
{
    let start = Walk { done: Seq::empty(), open: Seq::empty() };
    lemma_walk_over_nodes(start, nodes);
    assert(start.done + nodes =~= nodes);
}

/// The program of a walk over one tree is what stands below its root.
pub proof fn law_programs_stand_below_their_root(root: Node)
    ensures
        program_of(node_events(root)) == root.children,
{
    law_assembly_undoes_walk(seq![root]);
    assert(seq![root].drop_last() =~= Seq::empty());
    reveal_with_fuel(tree_events, 2);
    assert(tree_events(seq![root]) =~= node_events(root));
}

} // verus!
