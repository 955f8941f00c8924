//! Finds the calls and the superclasses in a file.
//!
//! Calls are looked for wherever code stands, bodies of functions included.
//! Each belongs to the innermost symbol around it: a named function, a method
//! with a plain name in whose body it stands, or a class with a name, for what
//! stands in its heading, its fields and its static blocks. The methods with a
//! private or computed key have no id to go by, and give what stands in them to
//! what is around the class. A call that stands in no symbol belongs to nothing
//! and is passed over. Only calls of plain names count: what a member
//! expression calls is not known.
use crate::engine::parse::syntax;
use crate::engine::parse::syntax::AstNode;
use crate::engine::parse::syntax::MethodKey;
use crate::engine::parse::syntax::MethodKind;
use crate::engine::parse::syntax::Node;
use crate::engine::parse::syntax::NodeKind;
use crate::engine::parse::syntax::Program;
use crate::engine::semantic::symbol_classify;
use crate::engine::semantic::symbol_classify::SymbolKind;
use crate::text;
use vstd::prelude::*;
use vstd::string::*;

verus! {

/// A name that a symbol of the file refers to.
pub struct Mention {
    pub from_symbol_id: String,
    pub name: String,
}

/// A `Mention` by its characters.
pub struct MentionView {
    pub from_symbol_id: Seq<char>,
    pub name: Seq<char>,
}

impl View for Mention {
    type V = MentionView;

    open spec fn view(&self) -> MentionView {
        MentionView { from_symbol_id: self.from_symbol_id@, name: self.name@ }
    }
}

/// Mentions by their characters.
pub open spec fn mentions_view(mentions: Seq<Mention>) -> Seq<MentionView> {
    mentions.map_values(|m: Mention| m@)
}

/// The names that are called and the superclasses that are named, in the
/// order in which they stand.
#[verifier::ext_equal]
pub struct Found {
    pub calls: Seq<MentionView>,
    pub extends: Seq<MentionView>,
}

/// Nothing.
pub open spec fn nothing() -> Found {
    Found { calls: Seq::empty(), extends: Seq::empty() }
}

/// What was found in one place and then in another.
pub open spec fn both(a: Found, b: Found) -> Found {
    Found { calls: a.calls + b.calls, extends: a.extends + b.extends }
}

/// The id of a function in a file.
pub open spec fn function_id(file: Seq<char>, name: Seq<char>) -> Seq<char> {
    file + "::"@ + name + "::function"@
}

/// The id of a class in a file.
pub open spec fn class_id(file: Seq<char>, name: Seq<char>) -> Seq<char> {
    file + "::"@ + name + "::class"@
}

/// The id of a method of a class in a file, under the name that it has among
/// the symbols of the file.
pub open spec fn method_id(file: Seq<char>, class: Seq<char>, name: Seq<char>) -> Seq<char> {
    file + "::"@ + class + "::"@ + name + "::method"@
}

/// What a call finds in the scope of a symbol.
pub open spec fn call_mention(scope: Option<Seq<char>>, callee: Option<Seq<char>>) -> Found {
    match (scope, callee) {
        (Some(from_symbol_id), Some(name)) => Found {
            calls: seq![MentionView { from_symbol_id, name }],
            extends: Seq::empty(),
        },
        _ => nothing(),
    }
}

/// What the class `name` finds in its heading.
pub open spec fn heading_mention(
    file: Seq<char>,
    name: Seq<char>,
    superclass: Option<Seq<char>>,
) -> Found {
    match superclass {
        Some(superclass) => Found {
            calls: Seq::empty(),
            extends: seq![
                MentionView { from_symbol_id: class_id(file, name), name: superclass },
            ],
        },
        None => nothing(),
    }
}

/// What is found in a node that stands in the scope of a symbol, if it stands
/// in one.
pub open spec fn in_node(file: Seq<char>, scope: Option<Seq<char>>, node: Node) -> Found
    decreases node,
{
    match node.kind {
        NodeKind::Function { name } => in_nodes(
            file,
            match name {
                Some(name) => Some(function_id(file, name)),
                None => scope,
            },
            node.children,
        ),
        NodeKind::Class { name, superclass } => match name {
            Some(name) => both(
                heading_mention(file, name, superclass),
                in_class(file, scope, name, node.children),
            ),
            None => in_nodes(file, scope, node.children),
        },
        NodeKind::Call { callee } => both(
            call_mention(scope, callee),
            in_nodes(file, scope, node.children),
        ),
        _ => in_nodes(file, scope, node.children),
    }
}

/// What is found in nodes, one after another.
pub open spec fn in_nodes(file: Seq<char>, scope: Option<Seq<char>>, nodes: Seq<Node>) -> Found
    decreases nodes,
{
    if nodes.len() == 0 {
        nothing()
    } else {
        both(in_nodes(file, scope, nodes.drop_last()), in_node(file, scope, nodes.last()))
    }
}

/// What is found in the class `name` with these children that stands in
/// `scope`. What is not in its body stands in the scope of the class.
pub open spec fn in_class(
    file: Seq<char>,
    scope: Option<Seq<char>>,
    name: Seq<char>,
    children: Seq<Node>,
) -> Found
    decreases children,
{
    if children.len() == 0 {
        nothing()
    } else {
        both(
            in_class(file, scope, name, children.drop_last()),
            if children.last().kind is ClassBody {
                in_elements(file, scope, name, children.last().children)
            } else {
                in_node(file, Some(class_id(file, name)), children.last())
            },
        )
    }
}

/// Whether an element of a class is a method with a plain name.
pub open spec fn is_plain_method(kind: NodeKind<Seq<char>>) -> bool {
    kind matches NodeKind::Method { key: MethodKey::Static(_), .. }
}

/// The scope of an element of the class `name` that stands in `scope`: that of
/// the method for a method with a plain name, what is around the class for a
/// method with another key, that of the class for anything else.
pub open spec fn element_scope(
    file: Seq<char>,
    scope: Option<Seq<char>>,
    name: Seq<char>,
    kind: NodeKind<Seq<char>>,
) -> Option<Seq<char>> {
    match kind {
        NodeKind::Method { key, kind } => match (key, symbol_classify::method_name(key, kind)) {
            (MethodKey::Static(_), Some(method)) => Some(method_id(file, name, method)),
            _ => scope,
        },
        _ => Some(class_id(file, name)),
    }
}

/// What is found in the elements of the class `name` that stands in `scope`,
/// each in its own scope. Of a method with a plain name that is its body.
pub open spec fn in_elements(
    file: Seq<char>,
    scope: Option<Seq<char>>,
    name: Seq<char>,
    elements: Seq<Node>,
) -> Found
    decreases elements,
{
    if elements.len() == 0 {
        nothing()
    } else {
        let own = element_scope(file, scope, name, elements.last().kind);
        both(
            in_elements(file, scope, name, elements.drop_last()),
            if is_plain_method(elements.last().kind) {
                in_method(file, own, elements.last().children)
            } else {
                in_node(file, own, elements.last())
            },
        )
    }
}

/// What is found in the body of a method with these children: the last of
/// them is the function that it stands for.
pub open spec fn in_method(file: Seq<char>, scope: Option<Seq<char>>, children: Seq<Node>) -> Found
    decreases children,
{
    if children.len() > 0 && children.last().kind is Function {
        in_body(file, scope, children.last().children)
    } else {
        nothing()
    }
}

/// What is found in the body of a function with these children.
pub open spec fn in_body(file: Seq<char>, scope: Option<Seq<char>>, children: Seq<Node>) -> Found
    decreases children,
{
    if children.len() == 0 {
        nothing()
    } else if children.last().kind is FunctionBody {
        in_node(file, scope, children.last())
    } else {
        in_body(file, scope, children.drop_last())
    }
}

/// Collects what is found in one file.
pub struct MentionCollector {
    pub file: String,
    pub calls: Vec<Mention>,
    pub extends: Vec<Mention>,
}

/// The scope of a symbol by its characters.
pub open spec fn scope_view(scope: Option<&str>) -> Option<Seq<char>> {
    text::opt_str_view(scope)
}

impl MentionCollector {
    /// What was found so far.
    pub open spec fn found(&self) -> Found {
        Found { calls: mentions_view(self.calls@), extends: mentions_view(self.extends@) }
    }

    fn visit_node(&mut self, scope: Option<&str>, node: &AstNode)
        ensures
            final(self).file == old(self).file,
            final(self).found() == both(
                old(self).found(),
                in_node(old(self).file@, scope_view(scope), node@),
            ),
        decreases node,
    {
        let ghost start = self.found();
        match &node.kind {
            NodeKind::Function { name } => {
                match name {
                    Some(name) => {
                        let mut id = self.file.clone();
                        id.append("::");
                        id.append(name);
                        id.append("::function");
                        self.visit_nodes(Some(&id), &node.children);
                    },
                    None => self.visit_nodes(scope, &node.children),
                }
            },
            NodeKind::Class { name, superclass } => {
                match name {
                    Some(name) => {
                        let mut id = self.file.clone();
                        id.append("::");
                        id.append(name);
                        id.append("::class");
                        if let Some(superclass) = superclass {
                            let made = Mention {
                                from_symbol_id: id.clone(),
                                name: superclass.clone(),
                            };
                            let ghost shown = made@;
                            self.extends.push(made);
                            assert(mentions_view(self.extends@) =~= start.extends.push(shown));
                        }
                        let ghost headed = self.found();
                        assert(headed =~= both(
                            start,
                            heading_mention(self.file@, name@, text::opt_view(*superclass)),
                        ));
                        self.visit_class(scope, name, &id, &node.children);
                        assert(self.found() =~= both(
                            start,
                            in_node(self.file@, scope_view(scope), node@),
                        ));
                    },
                    None => self.visit_nodes(scope, &node.children),
                }
            },
            NodeKind::Call { callee } => {
                if let Some(scope) = scope {
                    if let Some(callee) = callee {
                        let made = Mention {
                            from_symbol_id: scope.to_string(),
                            name: callee.clone(),
                        };
                        let ghost shown = made@;
                        self.calls.push(made);
                        assert(mentions_view(self.calls@) =~= start.calls.push(shown));
                    }
                }
                let ghost called = self.found();
                assert(called =~= both(
                    start,
                    call_mention(scope_view(scope), text::opt_view(*callee)),
                ));
                self.visit_nodes(scope, &node.children);
                assert(self.found() =~= both(start, in_node(self.file@, scope_view(scope), node@)));
            },
            _ => self.visit_nodes(scope, &node.children),
        }
    }

    fn visit_nodes(&mut self, scope: Option<&str>, nodes: &Vec<AstNode>)
        ensures
            final(self).file == old(self).file,
            final(self).found() == both(
                old(self).found(),
                in_nodes(old(self).file@, scope_view(scope), syntax::nodes_view(nodes@)),
            ),
        decreases nodes,
    {
        let ghost start = self.found();
        let ghost all = syntax::nodes_view(nodes@);
        proof {
            syntax::lemma_nodes_view(nodes@);
            assert(all.take(0) =~= Seq::empty());
            assert(both(start, nothing()) =~= start);
        }
        for i in 0..nodes.len()
            invariant
                start == old(self).found(),
                all.len() == nodes@.len(),
                forall|k: int| 0 <= k < nodes@.len() ==> #[trigger] all[k] == nodes@[k]@,
                self.file == old(self).file,
                self.found() == both(
                    start,
                    in_nodes(self.file@, scope_view(scope), all.take(i as int)),
                ),
        {
            assert(all.take(i + 1).drop_last() =~= all.take(i as int));
            assert(all[i as int] == nodes@[i as int]@);
            self.visit_node(scope, &nodes[i]);
            assert(self.found() =~= both(
                start,
                in_nodes(self.file@, scope_view(scope), all.take(i + 1)),
            ));
        }
        assert(all.take(nodes@.len() as int) =~= all);
    }

    fn visit_class(
        &mut self,
        scope: Option<&str>,
        name: &str,
        id: &str,
        children: &Vec<AstNode>,
    )
        requires
            id@ == class_id(old(self).file@, name@),
        ensures
            final(self).file == old(self).file,
            final(self).found() == both(
                old(self).found(),
                in_class(
                    old(self).file@,
                    scope_view(scope),
                    name@,
                    syntax::nodes_view(children@),
                ),
            ),
        decreases children,
    {
        let ghost start = self.found();
        let ghost all = syntax::nodes_view(children@);
        proof {
            syntax::lemma_nodes_view(children@);
            assert(all.take(0) =~= Seq::empty());
            assert(both(start, nothing()) =~= start);
        }
        for i in 0..children.len()
            invariant
                start == old(self).found(),
                all.len() == children@.len(),
                forall|k: int| 0 <= k < children@.len() ==> #[trigger] all[k] == children@[k]@,
                self.file == old(self).file,
                id@ == class_id(self.file@, name@),
                self.found() == both(
                    start,
                    in_class(self.file@, scope_view(scope), name@, all.take(i as int)),
                ),
        {
            assert(all.take(i + 1).drop_last() =~= all.take(i as int));
            assert(all[i as int] == children@[i as int]@);
            if let NodeKind::ClassBody = &children[i].kind {
                self.visit_elements(scope, name, id, &children[i].children);
            } else {
                self.visit_node(Some(id), &children[i]);
            }
            assert(self.found() =~= both(
                start,
                in_class(self.file@, scope_view(scope), name@, all.take(i + 1)),
            ));
        }
        assert(all.take(children@.len() as int) =~= all);
    }

    fn visit_elements(
        &mut self,
        scope: Option<&str>,
        name: &str,
        id: &str,
        elements: &Vec<AstNode>,
    )
        requires
            id@ == class_id(old(self).file@, name@),
        ensures
            final(self).file == old(self).file,
            final(self).found() == both(
                old(self).found(),
                in_elements(
                    old(self).file@,
                    scope_view(scope),
                    name@,
                    syntax::nodes_view(elements@),
                ),
            ),
        decreases elements,
    {
        let ghost start = self.found();
        let ghost all = syntax::nodes_view(elements@);
        proof {
            syntax::lemma_nodes_view(elements@);
            assert(all.take(0) =~= Seq::empty());
            assert(both(start, nothing()) =~= start);
        }
        for i in 0..elements.len()
            invariant
                start == old(self).found(),
                all.len() == elements@.len(),
                forall|k: int| 0 <= k < elements@.len() ==> #[trigger] all[k] == elements@[k]@,
                self.file == old(self).file,
                id@ == class_id(self.file@, name@),
                self.found() == both(
                    start,
                    in_elements(self.file@, scope_view(scope), name@, all.take(i as int)),
                ),
        {
            assert(all.take(i + 1).drop_last() =~= all.take(i as int));
            assert(all[i as int] == elements@[i as int]@);
            match &elements[i].kind {
                NodeKind::Method { key, kind } => {
                    let plain = matches!(key, MethodKey::Static(_));
                    match symbol_classify::name_method(key, *kind) {
                        Some(method) if plain => {
                            let mut own = self.file.clone();
                            own.append("::");
                            own.append(name);
                            own.append("::");
                            own.append(&method);
                            own.append("::method");
                            self.visit_method(Some(&own), &elements[i].children);
                        },
                        _ => self.visit_node(scope, &elements[i]),
                    }
                },
                _ => self.visit_node(Some(id), &elements[i]),
            }
            assert(self.found() =~= both(
                start,
                in_elements(self.file@, scope_view(scope), name@, all.take(i + 1)),
            ));
        }
        assert(all.take(elements@.len() as int) =~= all);
    }

    fn visit_method(&mut self, scope: Option<&str>, children: &Vec<AstNode>)
        ensures
            final(self).file == old(self).file,
            final(self).found() == both(
                old(self).found(),
                in_method(old(self).file@, scope_view(scope), syntax::nodes_view(children@)),
            ),
        decreases children,
    {
        let ghost start = self.found();
        let count: usize = children.len();
        proof {
            syntax::lemma_nodes_view(children@);
            assert(both(start, nothing()) =~= start);
        }
        if count > 0 {
            assert(syntax::nodes_view(children@)[count - 1] == children@[count - 1]@);
            if let NodeKind::Function { .. } = &children[count - 1].kind {
                self.visit_body(scope, &children[count - 1].children);
            }
        }
    }

    fn visit_body(&mut self, scope: Option<&str>, children: &Vec<AstNode>)
        ensures
            final(self).file == old(self).file,
            final(self).found() == both(
                old(self).found(),
                in_body(old(self).file@, scope_view(scope), syntax::nodes_view(children@)),
            ),
        decreases children,
    {
        let ghost start = self.found();
        let ghost all = syntax::nodes_view(children@);
        let mut end: usize = children.len();
        proof {
            syntax::lemma_nodes_view(children@);
            assert(all.take(end as int) =~= all);
        }
        while end > 0 && !matches!(children[end - 1].kind, NodeKind::FunctionBody)
            invariant
                end <= children@.len(),
                all.len() == children@.len(),
                forall|k: int| 0 <= k < children@.len() ==> #[trigger] all[k] == children@[k]@,
                in_body(self.file@, scope_view(scope), all.take(end as int)) == in_body(
                    self.file@,
                    scope_view(scope),
                    all,
                ),
            decreases end,
        {
            assert(all.take(end as int).drop_last() =~= all.take(end - 1));
            assert(all[end - 1] == children@[end - 1]@);
            end = end - 1;
        }
        if end > 0 {
            assert(all[end - 1] == children@[end - 1]@);
            self.visit_node(scope, &children[end - 1]);
        } else {
            assert(both(start, nothing()) =~= start);
        }
    }
}

/// What is found in a program.
pub open spec fn in_program(file: Seq<char>, body: Seq<Node>) -> Found {
    in_nodes(file, None, body)
}

/// Finds the calls and the superclasses in the program of the file `file`.
pub fn collect_mentions(file: &str, program: &Program) -> (collector: MentionCollector)
    ensures
        collector.found() == in_program(file@, program@),
{
    let mut collector = MentionCollector {
        file: file.to_string(),
        calls: Vec::new(),
        extends: Vec::new(),
    };
    assert(collector.found() =~= nothing());
    collector.visit_nodes(None, &program.body);
    assert(both(nothing(), in_program(file@, program@)) =~= in_program(file@, program@));
    collector
}

/// A call that stands in no symbol belongs to none: it adds nothing to what is
/// found inside it.
pub proof fn law_calls_outside_functions_are_passed_over(file: Seq<char>, call: Node)
    requires
        call.kind is Call,
    ensures
        in_node(file, None, call) == in_nodes(file, None, call.children),
{
    assert(both(nothing(), in_nodes(file, None, call.children)) =~= in_nodes(
        file,
        None,
        call.children,
    ));
}

/// An anonymous function makes no difference to whom a call belongs: what
/// stands in it is found as if it stood around it.
pub proof fn law_anonymous_functions_are_transparent(
    file: Seq<char>,
    scope: Option<Seq<char>>,
    node: Node,
)
    requires
        node.kind == (NodeKind::<Seq<char>>::Function { name: None }) || node.kind
            is ArrowFunction,
    ensures
        in_node(file, scope, node) == in_nodes(file, scope, node.children),
{
}

/// A class without a name makes no difference to whom a call belongs: what
/// stands in it is found as if it stood around it.
pub proof fn law_anonymous_classes_are_transparent(
    file: Seq<char>,
    scope: Option<Seq<char>>,
    node: Node,
)
    requires
        node.kind matches NodeKind::Class { name: None, .. },
    ensures
        in_node(file, scope, node) == in_nodes(file, scope, node.children),
{
}

/// What stands in a method with a private or computed key is found as if it
/// stood where the class stands.
pub proof fn law_methods_without_an_id_belong_around_the_class(
    file: Seq<char>,
    scope: Option<Seq<char>>,
    name: Seq<char>,
    elements: Seq<Node>,
)
    requires
        forall|i: int|
            0 <= i < elements.len() ==> (#[trigger] elements[i]).kind is Method
                && !is_plain_method(elements[i].kind),
    ensures
        in_elements(file, scope, name, elements) == in_nodes(file, scope, elements),
    decreases elements.len(),
{
    if elements.len() > 0 {
        let init = elements.drop_last();
        assert forall|i: int| 0 <= i < init.len() implies (#[trigger] init[i]).kind is Method
            && !is_plain_method(init[i].kind) by {
            assert(init[i] == elements[i]);
        }
        law_methods_without_an_id_belong_around_the_class(file, scope, name, init);
        assert(elements.last() == elements[elements.len() - 1]);
    }
}

/// The fields and static blocks of a class belong to it, wherever it stands.
pub proof fn law_fields_belong_to_their_class(
    file: Seq<char>,
    scope: Option<Seq<char>>,
    name: Seq<char>,
    elements: Seq<Node>,
)
    requires
        forall|i: int| 0 <= i < elements.len() ==> !((#[trigger] elements[i]).kind is Method),
    ensures
        in_elements(file, scope, name, elements) == in_nodes(
            file,
            Some(class_id(file, name)),
            elements,
        ),
    decreases elements.len(),
{
    if elements.len() > 0 {
        let init = elements.drop_last();
        assert forall|i: int| 0 <= i < init.len() implies !((#[trigger] init[i]).kind is Method) by {
            assert(init[i] == elements[i]);
        }
        law_fields_belong_to_their_class(file, scope, name, init);
        assert(elements.last() == elements[elements.len() - 1]);
    }
}

/// The id by which a call in a method is known is that of the method among the
/// symbols of the file.
pub proof fn law_callers_are_symbols(
    file: Seq<char>,
    exported: Set<Seq<char>>,
    scope: Option<Seq<char>>,
    class: Seq<char>,
    method: Node,
)
    requires
        is_plain_method(method.kind),
    ensures
        ({
            let symbols = symbol_classify::method_symbols(
                file,
                exported,
                seq![class],
                seq![method],
            );
            symbols.len() == 1 && element_scope(file, scope, class, method.kind) == Some(
                symbols[0].id,
            )
        }),
{
    reveal_with_fuel(symbol_classify::method_symbols, 2);
    assert(seq![method].drop_last() =~= Seq::empty());
    assert(text::join(seq![class], "::"@) == class);
    let symbols = symbol_classify::method_symbols(file, exported, seq![class], seq![method]);
    reveal_strlit("::");
    reveal_strlit("method");
    reveal_strlit("::method");
    assert("::method"@ =~= "::"@ + "method"@);
    if let NodeKind::Method { key, kind } = method.kind {
        let name = symbol_classify::method_name(key, kind)->0;
        assert(method_id(file, class, name) =~= symbols[0].id);
    }
}

/// The names that mentions are of, in order.
pub open spec fn mentioned(mentions: Seq<MentionView>) -> Seq<Seq<char>> {
    mentions.map_values(|m: MentionView| m.name)
}

/// The names that are called anywhere in a node, in the order in which the
/// calls begin.
pub open spec fn called_in(node: Node) -> Seq<Seq<char>>
    decreases node,
{
    (match node.kind {
        NodeKind::Call { callee: Some(name) } => seq![name],
        _ => Seq::empty(),
    }) + called_among(node.children)
}

/// The names that are called anywhere in nodes.
pub open spec fn called_among(nodes: Seq<Node>) -> Seq<Seq<char>>
    decreases nodes,
{
    if nodes.len() == 0 {
        Seq::empty()
    } else {
        called_among(nodes.drop_last()) + called_in(nodes.last())
    }
}

/// The superclasses of the named classes anywhere in a node, each with the id
/// of the class, in the order in which the classes begin.
pub open spec fn extended_in(file: Seq<char>, node: Node) -> Seq<MentionView>
    decreases node,
{
    (match node.kind {
        NodeKind::Class { name: Some(class), superclass: Some(name) } => seq![
            MentionView { from_symbol_id: file + "::"@ + class + "::class"@, name },
        ],
        _ => Seq::empty(),
    }) + extended_among(file, node.children)
}

/// The superclasses of the named classes anywhere in nodes.
pub open spec fn extended_among(file: Seq<char>, nodes: Seq<Node>) -> Seq<MentionView>
    decreases nodes,
{
    if nodes.len() == 0 {
        Seq::empty()
    } else {
        extended_among(file, nodes.drop_last()) + extended_in(file, nodes.last())
    }
}

/// Whether nothing is called and no class is extended in nodes.
pub open spec fn says_nothing(file: Seq<char>, nodes: Seq<Node>) -> bool {
    called_among(nodes).len() == 0 && extended_among(file, nodes).len() == 0
}

/// Whether all that the methods with a plain name in a node say, they say in
/// their bodies: nothing is called in their decorators and parameters.
pub open spec fn speaks_in_bodies(file: Seq<char>, node: Node) -> bool
    decreases node,
{
    &&& is_plain_method(node.kind) ==> {
        let method = node.children;
        let function = method.last().children;
        &&& method.len() > 0 && method.last().kind is Function
        &&& says_nothing(file, method.drop_last())
        &&& function.len() > 0 && function.last().kind is FunctionBody
        &&& says_nothing(file, function.drop_last())
    }
    &&& all_speak_in_bodies(file, node.children)
}

/// The same of every one of these nodes.
pub open spec fn all_speak_in_bodies(file: Seq<char>, nodes: Seq<Node>) -> bool
    decreases nodes,
{
    nodes.len() > 0 ==> all_speak_in_bodies(file, nodes.drop_last()) && speaks_in_bodies(
        file,
        nodes.last(),
    )
}

/// Whether what is found below a scope is all that is called and extended in
/// a place.
spec fn is_all(found: Found, called: Seq<Seq<char>>, extended: Seq<MentionView>) -> bool {
    mentioned(found.calls) == called && found.extends == extended
}

proof fn lemma_all_in_both(
    a: Found,
    b: Found,
    called_a: Seq<Seq<char>>,
    called_b: Seq<Seq<char>>,
    extended_a: Seq<MentionView>,
    extended_b: Seq<MentionView>,
)
    requires
        is_all(a, called_a, extended_a),
        is_all(b, called_b, extended_b),
    ensures
        is_all(both(a, b), called_a + called_b, extended_a + extended_b),
{
    assert(mentioned(a.calls + b.calls) =~= mentioned(a.calls) + mentioned(b.calls));
}

proof fn lemma_all_in_node(file: Seq<char>, scope: Seq<char>, node: Node)
    requires
        speaks_in_bodies(file, node),
    ensures
        is_all(
            in_node(file, Some(scope), node),
            called_in(node),
            extended_in(file, node),
        ),
    decreases node,
{
    let called = called_among(node.children);
    let extended = extended_among(file, node.children);
    assert(Seq::<Seq<char>>::empty() + called =~= called);
    assert(Seq::<MentionView>::empty() + extended =~= extended);
    match node.kind {
        NodeKind::Function { name } => {
            let own = match name {
                Some(name) => function_id(file, name),
                None => scope,
            };
            lemma_all_in_nodes(file, own, node.children);
        },
        NodeKind::Class { name, superclass } => {
            match name {
                Some(name) => {
                    let heading = heading_mention(file, name, superclass);
                    lemma_all_in_class(file, scope, name, node.children);
                    assert(mentioned(heading.calls) =~= Seq::empty());
                    lemma_all_in_both(
                        heading,
                        in_class(file, Some(scope), name, node.children),
                        Seq::empty(),
                        called,
                        heading.extends,
                        extended,
                    );
                },
                None => lemma_all_in_nodes(file, scope, node.children),
            }
        },
        NodeKind::Call { callee } => {
            let own = call_mention(Some(scope), callee);
            let said = match callee {
                Some(name) => seq![name],
                None => Seq::empty(),
            };
            lemma_all_in_nodes(file, scope, node.children);
            assert(mentioned(own.calls) =~= said);
            lemma_all_in_both(
                own,
                in_nodes(file, Some(scope), node.children),
                said,
                called,
                Seq::empty(),
                extended,
            );
        },
        _ => lemma_all_in_nodes(file, scope, node.children),
    }
}

proof fn lemma_all_in_nodes(file: Seq<char>, scope: Seq<char>, nodes: Seq<Node>)
    requires
        all_speak_in_bodies(file, nodes),
    ensures
        is_all(
            in_nodes(file, Some(scope), nodes),
            called_among(nodes),
            extended_among(file, nodes),
        ),
    decreases nodes,
{
    if nodes.len() > 0 {
        let init = nodes.drop_last();
        lemma_all_in_nodes(file, scope, init);
        lemma_all_in_node(file, scope, nodes.last());
        lemma_all_in_both(
            in_nodes(file, Some(scope), init),
            in_node(file, Some(scope), nodes.last()),
            called_among(init),
            called_in(nodes.last()),
            extended_among(file, init),
            extended_in(file, nodes.last()),
        );
    } else {
        assert(mentioned(nothing().calls) =~= Seq::empty());
    }
}

proof fn lemma_all_in_class(file: Seq<char>, scope: Seq<char>, name: Seq<char>, children: Seq<Node>)
    requires
        all_speak_in_bodies(file, children),
    ensures
        is_all(
            in_class(file, Some(scope), name, children),
            called_among(children),
            extended_among(file, children),
        ),
    decreases children,
{
    if children.len() > 0 {
        let init = children.drop_last();
        let last = children.last();
        let own = if last.kind is ClassBody {
            in_elements(file, Some(scope), name, last.children)
        } else {
            in_node(file, Some(class_id(file, name)), last)
        };
        lemma_all_in_class(file, scope, name, init);
        assert(speaks_in_bodies(file, last));
        if last.kind is ClassBody {
            lemma_all_in_elements(file, scope, name, last.children);
            assert(called_in(last) =~= called_among(last.children));
            assert(extended_in(file, last) =~= extended_among(file, last.children));
        } else {
            lemma_all_in_node(file, class_id(file, name), last);
        }
        lemma_all_in_both(
            in_class(file, Some(scope), name, init),
            own,
            called_among(init),
            called_in(last),
            extended_among(file, init),
            extended_in(file, last),
        );
    } else {
        assert(mentioned(nothing().calls) =~= Seq::empty());
    }
}

proof fn lemma_all_in_elements(
    file: Seq<char>,
    scope: Seq<char>,
    name: Seq<char>,
    elements: Seq<Node>,
)
    requires
        all_speak_in_bodies(file, elements),
    ensures
        is_all(
            in_elements(file, Some(scope), name, elements),
            called_among(elements),
            extended_among(file, elements),
        ),
    decreases elements,
{
    if elements.len() > 0 {
        let init = elements.drop_last();
        let last = elements.last();
        let id = element_scope(file, Some(scope), name, last.kind);
        lemma_all_in_elements(file, scope, name, init);
        if is_plain_method(last.kind) {
            let function = last.children.last();
            let body = function.children.last();
            assert(speaks_in_bodies(file, last));
            assert(all_speak_in_bodies(file, last.children));
            assert(speaks_in_bodies(file, function));
            assert(all_speak_in_bodies(file, function.children));
            assert(speaks_in_bodies(file, body));
            lemma_all_in_node(file, id->0, body);
            assert(called_among(function.children) =~= called_in(body));
            assert(called_in(function) =~= called_among(function.children));
            assert(called_among(last.children) =~= called_in(function));
            assert(called_in(last) =~= called_among(last.children));
            assert(extended_among(file, function.children) =~= extended_in(file, body));
            assert(extended_in(file, function) =~= extended_among(file, function.children));
            assert(extended_among(file, last.children) =~= extended_in(file, function));
            assert(extended_in(file, last) =~= extended_among(file, last.children));
            assert(in_method(file, id, last.children) == in_node(file, id, body));
        } else {
            lemma_all_in_node(file, id->0, last);
        }
        let own = if is_plain_method(last.kind) {
            in_method(file, id, last.children)
        } else {
            in_node(file, id, last)
        };
        lemma_all_in_both(
            in_elements(file, Some(scope), name, init),
            own,
            called_among(init),
            called_in(last),
            extended_among(file, init),
            extended_in(file, last),
        );
    } else {
        assert(mentioned(nothing().calls) =~= Seq::empty());
    }
}

/// Nothing hides a call: below a named function all the plain names that are
/// called are found, each as often as it is called and in order, whatever they
/// stand in; and so are all the superclasses of named classes, each with the
/// id of its class. The decorators and parameters of methods with a plain name
/// are left out: of those only the bodies are looked at.
pub proof fn law_every_call_below_a_function_is_found(
    file: Seq<char>,
    scope: Option<Seq<char>>,
    function: Node,
)
    requires
        function.kind matches NodeKind::Function { name: Some(_) },
        all_speak_in_bodies(file, function.children),
    ensures
        mentioned(in_node(file, scope, function).calls) == called_among(function.children),
        in_node(file, scope, function).extends == extended_among(file, function.children),
{
    if let NodeKind::Function { name: Some(name) } = function.kind {
        lemma_all_in_nodes(file, function_id(file, name), function.children);
    }
}

/// The same of what stands in a scope.
pub proof fn law_every_call_in_a_scope_is_found(file: Seq<char>, scope: Seq<char>, nodes: Seq<Node>)
    requires
        all_speak_in_bodies(file, nodes),
    ensures
        mentioned(in_nodes(file, Some(scope), nodes).calls) == called_among(nodes),
        in_nodes(file, Some(scope), nodes).extends == extended_among(file, nodes),
{
    lemma_all_in_nodes(file, scope, nodes);
}

/// No node but a function, a class and a call makes a difference to what is
/// found: what stands in it is found as if it stood around it.
pub proof fn law_other_nodes_are_transparent(file: Seq<char>, scope: Option<Seq<char>>, node: Node)
    requires
        !(node.kind is Function || node.kind is Class || node.kind is Call),
    ensures
        in_node(file, scope, node) == in_nodes(file, scope, node.children),
{
}

/// Whether no named function and no named class stands in a node.
pub open spec fn opens_no_scope(node: Node) -> bool
    decreases node,
{
    &&& !(node.kind matches NodeKind::Function { name: Some(_) })
    &&& !(node.kind matches NodeKind::Class { name: Some(_), .. })
    &&& none_opens_a_scope(node.children)
}

/// The same of every one of these nodes.
pub open spec fn none_opens_a_scope(nodes: Seq<Node>) -> bool
    decreases nodes,
{
    nodes.len() > 0 ==> none_opens_a_scope(nodes.drop_last()) && opens_no_scope(nodes.last())
}

proof fn lemma_calls_belong_in_node(file: Seq<char>, scope: Option<Seq<char>>, node: Node, i: int)
    requires
        opens_no_scope(node),
        0 <= i < in_node(file, scope, node).calls.len(),
    ensures
        scope == Some(in_node(file, scope, node).calls[i].from_symbol_id),
    decreases node,
{
    match node.kind {
        NodeKind::Call { callee } => {
            let own = call_mention(scope, callee).calls.len();
            if i >= own {
                lemma_calls_belong_in_nodes(file, scope, node.children, i - own);
            }
        },
        _ => lemma_calls_belong_in_nodes(file, scope, node.children, i),
    }
}

proof fn lemma_calls_belong_in_nodes(
    file: Seq<char>,
    scope: Option<Seq<char>>,
    nodes: Seq<Node>,
    i: int,
)
    requires
        none_opens_a_scope(nodes),
        0 <= i < in_nodes(file, scope, nodes).calls.len(),
    ensures
        scope == Some(in_nodes(file, scope, nodes).calls[i].from_symbol_id),
    decreases nodes,
{
    if nodes.len() > 0 {
        let before = in_nodes(file, scope, nodes.drop_last()).calls.len();
        if i < before {
            lemma_calls_belong_in_nodes(file, scope, nodes.drop_last(), i);
        } else {
            lemma_calls_belong_in_node(file, scope, nodes.last(), i - before);
        }
    }
}

/// A call belongs to the innermost symbol around it: where no named function
/// and no named class stands between, that is the function, under the id that
/// the function has among the symbols of the file.
pub proof fn law_calls_belong_to_the_function_around_them(
    file: Seq<char>,
    scope: Option<Seq<char>>,
    exported: Set<Seq<char>>,
    name: Seq<char>,
    function: Node,
    i: int,
)
    requires
        function.kind == (NodeKind::Function { name: Some(name) }),
        none_opens_a_scope(function.children),
        0 <= i < in_node(file, scope, function).calls.len(),
    ensures
        in_node(file, scope, function).calls[i].from_symbol_id == file + "::"@ + name
            + "::function"@,
        in_node(file, scope, function).calls[i].from_symbol_id == symbol_classify::symbol(
            file,
            exported,
            Seq::empty(),
            name,
            SymbolKind::Function,
            function,
        ).id,
{
    lemma_calls_belong_in_nodes(file, Some(function_id(file, name)), function.children, i);
    reveal_strlit("::");
    reveal_strlit("function");
    reveal_strlit("::function");
    assert("::function"@ =~= "::"@ + "function"@);
    let id = file + "::"@ + name + "::"@ + "function"@;
    assert(function_id(file, name) =~= id);
}

/// What stands in no symbol is passed over: without a scope, no call is found
/// where no named function and no named class is.
pub proof fn law_calls_in_no_symbol_are_not_found(file: Seq<char>, nodes: Seq<Node>)
    requires
        none_opens_a_scope(nodes),
    ensures
        in_nodes(file, None, nodes).calls.len() == 0,
{
    if in_nodes(file, None, nodes).calls.len() > 0 {
        lemma_calls_belong_in_nodes(file, None, nodes, 0);
    }
}

/// Nothing hides a call in the body of a method with a plain name, wherever
/// its class stands, and the calls there belong to the method: to
/// `file::class::method::method`, where accessors and constructors have the
/// names that they have among the symbols of the file.
pub proof fn law_every_call_in_a_method_is_found(
    file: Seq<char>,
    scope: Option<Seq<char>>,
    class: Seq<char>,
    key: Seq<char>,
    kind: MethodKind,
    method: Node,
    body: Node,
)
    requires
        method.kind == (NodeKind::Method { key: MethodKey::Static(key), kind }),
        method.children.len() > 0,
        method.children.last().kind is Function,
        method.children.last().children.len() > 0,
        method.children.last().children.last() == body,
        body.kind is FunctionBody,
        speaks_in_bodies(file, body),
    ensures
        mentioned(in_elements(file, scope, class, seq![method]).calls) == called_in(body),
        in_elements(file, scope, class, seq![method]).extends == extended_in(file, body),
        opens_no_scope(body) ==> forall|i: int|
            0 <= i < called_in(body).len() ==> (#[trigger] in_elements(
                file,
                scope,
                class,
                seq![method],
            ).calls[i]).from_symbol_id == file + "::"@ + class + "::"@ + (match kind {
                MethodKind::Constructor => key + " (constructor)"@,
                MethodKind::Getter => key + " (get)"@,
                MethodKind::Setter => key + " (set)"@,
                MethodKind::Method => key,
            }) + "::method"@,
{
    let id = element_scope(file, scope, class, method.kind);
    let found = in_elements(file, scope, class, seq![method]);
    reveal_with_fuel(in_elements, 2);
    assert(seq![method].drop_last() =~= Seq::empty());
    assert(in_method(file, id, method.children) == in_node(file, id, body));
    assert(in_elements(file, scope, class, Seq::empty()) == nothing());
    assert(both(nothing(), in_node(file, id, body)) =~= in_node(file, id, body));
    lemma_all_in_node(file, id->0, body);
    if opens_no_scope(body) {
        assert forall|i: int| 0 <= i < called_in(body).len() implies Some(
            (#[trigger] found.calls[i]).from_symbol_id,
        ) == id by {
            assert(mentioned(found.calls).len() == found.calls.len());
            lemma_calls_belong_in_node(file, id, body, i);
        }
    }
}

/// What stands in the heading of a class with a name belongs to the class, and
/// what stands in its body is found after it; the superclass that it names is
/// found first, whatever is around the class.
pub proof fn law_classes_are_walked_from_heading_to_body(
    file: Seq<char>,
    scope: Option<Seq<char>>,
    class: Node,
    name: Seq<char>,
    superclass: Option<Seq<char>>,
    heading: Seq<Node>,
    body: Node,
)
    requires
        class.kind == (NodeKind::Class { name: Some(name), superclass }),
        class.children == heading.push(body),
        forall|i: int| 0 <= i < heading.len() ==> !((#[trigger] heading[i]).kind is ClassBody),
        body.kind is ClassBody,
    ensures
        ({
            let before = in_nodes(file, Some(file + "::"@ + name + "::class"@), heading);
            let inside = in_elements(file, scope, name, body.children);
            let found = in_node(file, scope, class);
            &&& found.calls == before.calls + inside.calls
            &&& found.extends == (match superclass {
                Some(wanted) => seq![
                    MentionView {
                        from_symbol_id: file + "::"@ + name + "::class"@,
                        name: wanted,
                    },
                ],
                None => Seq::empty(),
            }) + (before.extends + inside.extends)
        }),
{
    lemma_heading(file, scope, name, heading);
    assert(class.children.drop_last() =~= heading);
    assert(class.children.last() == body);
    let id = class_id(file, name);
    let found = in_node(file, scope, class);
    let before = in_nodes(file, Some(id), heading);
    let inside = in_elements(file, scope, name, body.children);
    assert(in_class(file, scope, name, class.children) == both(before, inside));
    assert(found.calls =~= before.calls + inside.calls);
}

proof fn lemma_heading(
    file: Seq<char>,
    scope: Option<Seq<char>>,
    name: Seq<char>,
    heading: Seq<Node>,
)
    requires
        forall|i: int| 0 <= i < heading.len() ==> !((#[trigger] heading[i]).kind is ClassBody),
    ensures
        in_class(file, scope, name, heading) == in_nodes(
            file,
            Some(class_id(file, name)),
            heading,
        ),
    decreases heading.len(),
{
    if heading.len() > 0 {
        let init = heading.drop_last();
        assert forall|i: int| 0 <= i < init.len() implies !((#[trigger] init[i]).kind
            is ClassBody) by {
            assert(init[i] == heading[i]);
        }
        lemma_heading(file, scope, name, init);
        assert(heading.last() == heading[heading.len() - 1]);
    }
}

/// The elements of a class are walked one after another.
pub proof fn law_elements_stand_in_order(
    file: Seq<char>,
    scope: Option<Seq<char>>,
    name: Seq<char>,
    before: Seq<Node>,
    element: Node,
)
    ensures
        in_elements(file, scope, name, before.push(element)) == both(
            in_elements(file, scope, name, before),
            in_elements(file, scope, name, seq![element]),
        ),
        in_nodes(file, scope, before.push(element)) == both(
            in_nodes(file, scope, before),
            in_node(file, scope, element),
        ),
{
    reveal_with_fuel(in_elements, 2);
    assert(before.push(element).drop_last() =~= before);
    assert(seq![element].drop_last() =~= Seq::empty());
    let alone = in_elements(file, scope, name, seq![element]);
    let own = element_scope(file, scope, name, element.kind);
    let found = if is_plain_method(element.kind) {
        in_method(file, own, element.children)
    } else {
        in_node(file, own, element)
    };
    assert(both(nothing(), found) =~= found);
}

/// A class is known by the id that it has among the symbols of the file.
pub proof fn law_classes_are_known_by_their_symbol(
    file: Seq<char>,
    exported: Set<Seq<char>>,
    name: Seq<char>,
    class: Node,
)
    ensures
        class_id(file, name) == symbol_classify::symbol(
            file,
            exported,
            Seq::empty(),
            name,
            SymbolKind::Class,
            class,
        ).id,
        class_id(file, name) == file + "::"@ + name + "::class"@,
{
    reveal_strlit("::");
    reveal_strlit("class");
    reveal_strlit("::class");
    assert("::class"@ =~= "::"@ + "class"@);
    let id = file + "::"@ + name + "::"@ + "class"@;
    assert(class_id(file, name) =~= id);
}

} // verus!
