//! The symbols that a file declares: functions, classes with their methods,
//! interfaces, type aliases, enums and variables.
//!
//! The names that a module exports are collected first, so that whether a
//! symbol is exported is a matter of its name and not of the order of
//! statements. Bodies of functions, arrow functions included, are not
//! entered: what is declared inside them is no symbol of the file.
use super::scope_path;
use super::scope_path::build_structural_id;
use super::scope_path::ScopePath;
use crate::engine::parse::syntax;
use crate::engine::parse::syntax::AstNode;
use crate::engine::parse::syntax::DefaultExport;
use crate::engine::parse::syntax::MethodKey;
use crate::engine::parse::syntax::MethodKind;
use crate::engine::parse::syntax::Node;
use crate::engine::parse::syntax::NodeKind;
use crate::engine::parse::syntax::Program;
use crate::string_map::StringMap;
use crate::text;
use vstd::prelude::*;
use vstd::string::*;

verus! {

/// What a symbol is.
#[derive(Debug, Clone, Copy, PartialEq, Eq, Structural)]
pub enum SymbolKind {
    Function,
    Class,
    Method,
    Interface,
    TypeAlias,
    Enum,
    Variable,
}

/// The name of a symbol kind in ids.
pub open spec fn kind_name(kind: SymbolKind) -> Seq<char> {
    match kind {
        SymbolKind::Function => "function"@,
        SymbolKind::Class => "class"@,
        SymbolKind::Method => "method"@,
        SymbolKind::Interface => "interface"@,
        SymbolKind::TypeAlias => "type_alias"@,
        SymbolKind::Enum => "enum"@,
        SymbolKind::Variable => "variable"@,
    }
}

impl SymbolKind {
    /// The name of the kind in ids.
    pub fn as_str(self) -> (s: &'static str)
        ensures
            s@ == kind_name(self),
    {
        match self {
            SymbolKind::Function => "function",
            SymbolKind::Class => "class",
            SymbolKind::Method => "method",
            SymbolKind::Interface => "interface",
            SymbolKind::TypeAlias => "type_alias",
            SymbolKind::Enum => "enum",
            SymbolKind::Variable => "variable",
        }
    }
}

/// A symbol that a file declares.
#[derive(Debug, Clone)]
pub struct Symbol {
    pub id: String,
    pub file: String,
    pub name: String,
    pub kind: SymbolKind,
    pub span_start: u32,
    pub span_end: u32,
    pub exported: bool,
}

/// A `Symbol` by its characters.
pub struct SymbolView {
    pub id: Seq<char>,
    pub file: Seq<char>,
    pub name: Seq<char>,
    pub kind: SymbolKind,
    pub span_start: u32,
    pub span_end: u32,
    pub exported: bool,
}

impl View for Symbol {
    type V = SymbolView;

    open spec fn view(&self) -> SymbolView {
        SymbolView {
            id: self.id@,
            file: self.file@,
            name: self.name@,
            kind: self.kind,
            span_start: self.span_start,
            span_end: self.span_end,
            exported: self.exported,
        }
    }
}

/// Symbols by their characters.
pub open spec fn symbols_view(symbols: Seq<Symbol>) -> Seq<SymbolView> {
    symbols.map_values(|s: Symbol| s@)
}

// ---- exported names ----

/// The name of a declaration of one thing.
pub open spec fn declaration_name(kind: NodeKind<Seq<char>>) -> Option<Seq<char>> {
    match kind {
        NodeKind::Function { name } => name,
        NodeKind::Class { name, .. } => name,
        NodeKind::Interface { name } => Some(name),
        NodeKind::TypeAlias { name } => Some(name),
        NodeKind::Enum { name } => Some(name),
        _ => None,
    }
}

/// The names of the variables that are declared at once. Patterns have no one
/// name and are passed over.
pub open spec fn declarator_names(nodes: Seq<Node>) -> Set<Seq<char>>
    decreases nodes.len(),
{
    if nodes.len() == 0 {
        Set::empty()
    } else {
        match nodes.last().kind {
            NodeKind::VariableDeclarator { name: Some(name) } => declarator_names(
                nodes.drop_last(),
            ).insert(name),
            _ => declarator_names(nodes.drop_last()),
        }
    }
}

/// The names that a declaration declares.
pub open spec fn declared_names(declaration: Node) -> Set<Seq<char>> {
    if declaration.kind is VariableDeclaration {
        declarator_names(declaration.children)
    } else {
        match declaration_name(declaration.kind) {
            Some(name) => Set::empty().insert(name),
            None => Set::empty(),
        }
    }
}

/// The local names in a list of export specifiers.
pub open spec fn specifier_names(nodes: Seq<Node>) -> Set<Seq<char>>
    decreases nodes.len(),
{
    if nodes.len() == 0 {
        Set::empty()
    } else {
        match nodes.last().kind {
            NodeKind::ExportSpecifier { local } => specifier_names(nodes.drop_last()).insert(local),
            _ => specifier_names(nodes.drop_last()),
        }
    }
}

/// The name that a property of an exported object literal stands for: that
/// of its value where the value is an identifier, else its key.
pub open spec fn property_name(kind: NodeKind<Seq<char>>) -> Option<Seq<char>> {
    match kind {
        NodeKind::ObjectProperty { value, key } => match value {
            Some(name) => Some(name),
            None => key,
        },
        _ => None,
    }
}

/// The names that the properties of an exported object literal stand for.
pub open spec fn property_names(nodes: Seq<Node>) -> Set<Seq<char>>
    decreases nodes.len(),
{
    if nodes.len() == 0 {
        Set::empty()
    } else {
        match property_name(nodes.last().kind) {
            Some(name) => property_names(nodes.drop_last()).insert(name),
            None => property_names(nodes.drop_last()),
        }
    }
}

/// The names that one statement exports from this file. `export { a } from`
/// another module names nothing that is declared here.
pub open spec fn statement_exports(statement: Node) -> Set<Seq<char>> {
    match statement.kind {
        NodeKind::ExportNamed { source, has_declaration, .. } => if has_declaration {
            if statement.children.len() > 0 {
                declared_names(statement.children[0])
            } else {
                Set::empty()
            }
        } else if source is None {
            specifier_names(statement.children)
        } else {
            Set::empty()
        },
        NodeKind::ExportDefault { form } => match form {
            DefaultExport::Declared(Some(name)) => Set::empty().insert(name),
            DefaultExport::Declared(None) => Set::empty(),
            DefaultExport::Binding(name) => Set::empty().insert(name),
            DefaultExport::Object => if statement.children.len() > 0 {
                property_names(statement.children[0].children)
            } else {
                Set::empty()
            },
            DefaultExport::Other => Set::empty(),
        },
        _ => Set::empty(),
    }
}

/// The names that a module exports from this file.
pub open spec fn exported_names(body: Seq<Node>) -> Set<Seq<char>>
    decreases body.len(),
{
    if body.len() == 0 {
        Set::empty()
    } else {
        exported_names(body.drop_last()).union(statement_exports(body.last()))
    }
}

fn name_of_declaration(kind: &NodeKind<String>) -> (name: Option<String>)
    ensures
        crate::text::opt_view(name) == declaration_name(syntax::kind_view(*kind)),
{
    match kind {
        NodeKind::Function { name } => name.clone(),
        NodeKind::Class { name, .. } => name.clone(),
        NodeKind::Interface { name } => Some(name.clone()),
        NodeKind::TypeAlias { name } => Some(name.clone()),
        NodeKind::Enum { name } => Some(name.clone()),
        _ => None,
    }
}

fn add_name(names: &mut StringMap<()>, name: &str)
    ensures
        final(names)@.dom() == old(names)@.dom().insert(name@),
{
    names.insert(name.to_string(), ());
    assert(names@.dom() =~= old(names)@.dom().insert(name@));
}

fn add_specifiers(names: &mut StringMap<()>, nodes: &Vec<AstNode>)
    ensures
        final(names)@.dom() == old(names)@.dom().union(
            specifier_names(syntax::nodes_view(nodes@)),
        ),
{
    let ghost all = syntax::nodes_view(nodes@);
    proof {
        syntax::lemma_nodes_view(nodes@);
        assert(all.take(0) =~= Seq::empty());
        assert(names@.dom().union(specifier_names(all.take(0))) =~= names@.dom());
    }
    for i in 0..nodes.len()
        invariant
            all.len() == nodes@.len(),
            forall|k: int| 0 <= k < nodes@.len() ==> #[trigger] all[k] == nodes@[k]@,
            names@.dom() == old(names)@.dom().union(specifier_names(all.take(i as int))),
    {
        let ghost before = specifier_names(all.take(i as int));
        assert(all.take(i + 1).drop_last() =~= all.take(i as int));
        assert(all[i as int] == nodes@[i as int]@);
        if let NodeKind::ExportSpecifier { local } = &nodes[i].kind {
            add_name(names, local);
            assert(names@.dom() =~= old(names)@.dom().union(before.insert(local@)));
        }
    }
    assert(all.take(nodes@.len() as int) =~= all);
}

fn add_declarators(names: &mut StringMap<()>, nodes: &Vec<AstNode>)
    ensures
        final(names)@.dom() == old(names)@.dom().union(
            declarator_names(syntax::nodes_view(nodes@)),
        ),
{
    let ghost all = syntax::nodes_view(nodes@);
    proof {
        syntax::lemma_nodes_view(nodes@);
        assert(all.take(0) =~= Seq::empty());
        assert(names@.dom().union(declarator_names(all.take(0))) =~= names@.dom());
    }
    for i in 0..nodes.len()
        invariant
            all.len() == nodes@.len(),
            forall|k: int| 0 <= k < nodes@.len() ==> #[trigger] all[k] == nodes@[k]@,
            names@.dom() == old(names)@.dom().union(declarator_names(all.take(i as int))),
    {
        let ghost before = declarator_names(all.take(i as int));
        assert(all.take(i + 1).drop_last() =~= all.take(i as int));
        assert(all[i as int] == nodes@[i as int]@);
        if let NodeKind::VariableDeclarator { name } = &nodes[i].kind {
            if let Some(name) = name {
                add_name(names, name);
                assert(names@.dom() =~= old(names)@.dom().union(before.insert(name@)));
            }
        }
    }
    assert(all.take(nodes@.len() as int) =~= all);
}

fn add_properties(names: &mut StringMap<()>, nodes: &Vec<AstNode>)
    ensures
        final(names)@.dom() == old(names)@.dom().union(property_names(syntax::nodes_view(nodes@))),
{
    let ghost all = syntax::nodes_view(nodes@);
    proof {
        syntax::lemma_nodes_view(nodes@);
        assert(all.take(0) =~= Seq::empty());
        assert(names@.dom().union(property_names(all.take(0))) =~= names@.dom());
    }
    for i in 0..nodes.len()
        invariant
            all.len() == nodes@.len(),
            forall|k: int| 0 <= k < nodes@.len() ==> #[trigger] all[k] == nodes@[k]@,
            names@.dom() == old(names)@.dom().union(property_names(all.take(i as int))),
    {
        let ghost before = property_names(all.take(i as int));
        assert(all.take(i + 1).drop_last() =~= all.take(i as int));
        assert(all[i as int] == nodes@[i as int]@);
        if let NodeKind::ObjectProperty { value, key } = &nodes[i].kind {
            let name: &Option<String> = if value.is_some() {
                value
            } else {
                key
            };
            if let Some(name) = name {
                add_name(names, name);
                assert(names@.dom() =~= old(names)@.dom().union(before.insert(name@)));
            }
        }
    }
    assert(all.take(nodes@.len() as int) =~= all);
}

fn add_exports(names: &mut StringMap<()>, statement: &AstNode)
    ensures
        final(names)@.dom() == old(names)@.dom().union(statement_exports(statement@)),
{
    proof {
        syntax::lemma_nodes_view(statement.children@);
        assert(names@.dom().union(Set::empty()) =~= names@.dom());
        assert forall|x: Seq<char>| #[trigger]
            names@.dom().union(Set::empty().insert(x)) == names@.dom().insert(x) by {
            assert(names@.dom().union(Set::empty().insert(x)) =~= names@.dom().insert(x));
        }
    }
    match &statement.kind {
        NodeKind::ExportNamed { source, has_declaration, .. } => {
            if *has_declaration {
                if statement.children.len() > 0 {
                    let declaration = &statement.children[0];
                    if let NodeKind::VariableDeclaration = &declaration.kind {
                        add_declarators(names, &declaration.children);
                    } else if let Some(name) = name_of_declaration(&declaration.kind) {
                        add_name(names, &name);
                    }
                }
            } else if source.is_none() {
                add_specifiers(names, &statement.children);
            }
        },
        NodeKind::ExportDefault { form } => match form {
            DefaultExport::Declared(name) => {
                if let Some(name) = name {
                    add_name(names, name);
                }
            },
            DefaultExport::Binding(name) => add_name(names, name),
            DefaultExport::Object => {
                if statement.children.len() > 0 {
                    add_properties(names, &statement.children[0].children);
                }
            },
            DefaultExport::Other => {},
        },
        _ => {},
    }
}

/// The names that a module exports from this file, in whichever way: with a
/// declaration, by default, or in a list of names.
pub fn collect_top_level_exported_names(program: &Program) -> (names: StringMap<()>)
    ensures
        names@.dom() == exported_names(program@),
{
    let ghost all = program@;
    let mut names: StringMap<()> = StringMap::new();
    proof {
        syntax::lemma_nodes_view(program.body@);
        assert(all.take(0) =~= Seq::empty());
        assert(names@.dom() =~= Set::empty());
    }
    for i in 0..program.body.len()
        invariant
            all.len() == program.body@.len(),
            forall|k: int| 0 <= k < program.body@.len() ==> #[trigger] all[k] == program.body@[k]@,
            names@.dom() == exported_names(all.take(i as int)),
    {
        assert(all.take(i + 1).drop_last() =~= all.take(i as int));
        assert(all[i as int] == program.body@[i as int]@);
        add_exports(&mut names, &program.body[i]);
    }
    assert(all.take(program.body@.len() as int) =~= all);
    names
}

// ---- symbols ----

/// The symbol called `name` that stands in `scopes` of a file with the
/// exported names `exported`.
pub open spec fn symbol(
    file: Seq<char>,
    exported: Set<Seq<char>>,
    scopes: Seq<Seq<char>>,
    name: Seq<char>,
    kind: SymbolKind,
    node: Node,
) -> SymbolView {
    SymbolView {
        id: scope_path::structural_id(file, scopes, name, kind_name(kind)),
        file,
        name,
        kind,
        span_start: node.span_start,
        span_end: node.span_end,
        exported: scopes.len() == 0 && exported.contains(name),
    }
}

/// The name of a method with its key and kind. Computed keys have none.
pub open spec fn method_name(key: MethodKey<Seq<char>>, kind: MethodKind) -> Option<Seq<char>> {
    let plain = match key {
        MethodKey::Static(name) => Some(name),
        MethodKey::Private(name) => Some("#"@ + name),
        MethodKey::Computed => None,
    };
    match plain {
        None => None,
        Some(name) => Some(
            match kind {
                MethodKind::Constructor => name + " (constructor)"@,
                MethodKind::Getter => name + " (get)"@,
                MethodKind::Setter => name + " (set)"@,
                MethodKind::Method => name,
            },
        ),
    }
}

/// The name of a method with its key and kind.
pub fn name_method(key: &MethodKey<String>, kind: MethodKind) -> (name: Option<String>)
    ensures
        text::opt_view(name) == method_name(syntax::key_view(*key), kind),
{
    let plain: String = match key {
        MethodKey::Static(name) => name.clone(),
        MethodKey::Private(name) => String::from_str("#").concat(name),
        MethodKey::Computed => {
            return None;
        },
    };
    Some(
        match kind {
            MethodKind::Constructor => plain.concat(" (constructor)"),
            MethodKind::Getter => plain.concat(" (get)"),
            MethodKind::Setter => plain.concat(" (set)"),
            MethodKind::Method => plain,
        },
    )
}

/// The elements of the body among the children of a class.
pub open spec fn class_elements(children: Seq<Node>) -> Seq<Node>
    decreases children.len(),
{
    if children.len() == 0 {
        Seq::empty()
    } else if children.last().kind is ClassBody {
        children.last().children
    } else {
        class_elements(children.drop_last())
    }
}

/// The methods among the elements of a class body.
pub open spec fn method_symbols(
    file: Seq<char>,
    exported: Set<Seq<char>>,
    scopes: Seq<Seq<char>>,
    elements: Seq<Node>,
) -> Seq<SymbolView>
    decreases elements.len(),
{
    if elements.len() == 0 {
        Seq::empty()
    } else {
        let before = method_symbols(file, exported, scopes, elements.drop_last());
        match elements.last().kind {
            NodeKind::Method { key, kind } => match method_name(key, kind) {
                Some(name) => before.push(
                    symbol(file, exported, scopes, name, SymbolKind::Method, elements.last()),
                ),
                None => before,
            },
            _ => before,
        }
    }
}

/// The variables among the declarators of a declaration. Patterns have no
/// one name and are passed over.
pub open spec fn variable_symbols(
    file: Seq<char>,
    exported: Set<Seq<char>>,
    scopes: Seq<Seq<char>>,
    declarators: Seq<Node>,
) -> Seq<SymbolView>
    decreases declarators.len(),
{
    if declarators.len() == 0 {
        Seq::empty()
    } else {
        let before = variable_symbols(file, exported, scopes, declarators.drop_last());
        match declarators.last().kind {
            NodeKind::VariableDeclarator { name: Some(name) } => before.push(
                symbol(file, exported, scopes, name, SymbolKind::Variable, declarators.last()),
            ),
            _ => before,
        }
    }
}

/// The scopes inside a class.
pub open spec fn inside(scopes: Seq<Seq<char>>, class: Option<Seq<char>>) -> Seq<Seq<char>> {
    match class {
        Some(name) => scopes.push(name),
        None => scopes,
    }
}

/// The symbols that a node declares.
pub open spec fn node_symbols(
    file: Seq<char>,
    exported: Set<Seq<char>>,
    scopes: Seq<Seq<char>>,
    node: Node,
) -> Seq<SymbolView>
    decreases node,
{
    match node.kind {
        NodeKind::Function { name } => match name {
            Some(name) => seq![symbol(file, exported, scopes, name, SymbolKind::Function, node)],
            None => Seq::empty(),
        },
        NodeKind::ArrowFunction => Seq::empty(),
        NodeKind::Class { name, .. } => {
            let own = match name {
                Some(name) => seq![symbol(file, exported, scopes, name, SymbolKind::Class, node)],
                None => Seq::empty(),
            };
            own + method_symbols(
                file,
                exported,
                inside(scopes, name),
                class_elements(node.children),
            )
        },
        NodeKind::Interface { name } => seq![
            symbol(file, exported, scopes, name, SymbolKind::Interface, node),
        ],
        NodeKind::TypeAlias { name } => seq![
            symbol(file, exported, scopes, name, SymbolKind::TypeAlias, node),
        ],
        NodeKind::Enum { name } => seq![
            symbol(file, exported, scopes, name, SymbolKind::Enum, node),
        ],
        NodeKind::VariableDeclaration => variable_symbols(file, exported, scopes, node.children),
        _ => tree_symbols(file, exported, scopes, node.children),
    }
}

/// The symbols that nodes declare, one after another.
pub open spec fn tree_symbols(
    file: Seq<char>,
    exported: Set<Seq<char>>,
    scopes: Seq<Seq<char>>,
    nodes: Seq<Node>,
) -> Seq<SymbolView>
    decreases nodes,
{
    if nodes.len() == 0 {
        Seq::empty()
    } else {
        tree_symbols(file, exported, scopes, nodes.drop_last()) + node_symbols(
            file,
            exported,
            scopes,
            nodes.last(),
        )
    }
}

/// The symbols that a file declares.
pub open spec fn program_symbols(file: Seq<char>, body: Seq<Node>) -> Seq<SymbolView> {
    tree_symbols(file, exported_names(body), Seq::empty(), body)
}

struct SymbolCollector {
    file_path: String,
    scope_path: ScopePath,
    exported_names: StringMap<()>,
    symbols: Vec<Symbol>,
}

impl SymbolCollector {
    spec fn found(&self) -> Seq<SymbolView> {
        symbols_view(self.symbols@)
    }

    /// Where the collector stands: the same file, exported names and scopes
    /// as `other`.
    spec fn same_place(&self, other: &SymbolCollector) -> bool {
        &&& self.file_path@ == other.file_path@
        &&& self.exported_names@ == other.exported_names@
        &&& self.scope_path@ == other.scope_path@
    }

    fn push_symbol(&mut self, name: &str, kind: SymbolKind, node: &AstNode)
        ensures
            final(self).same_place(old(self)),
            final(self).found() == old(self).found().push(
                symbol(
                    old(self).file_path@,
                    old(self).exported_names@.dom(),
                    old(self).scope_path@,
                    name@,
                    kind,
                    node@,
                ),
            ),
    {
        let id = build_structural_id(&self.file_path, &self.scope_path, name, kind.as_str());
        let exported = self.scope_path.is_top_level() && self.exported_names.contains_key(name);
        let ghost before = self.found();
        let made = Symbol {
            id,
            file: self.file_path.clone(),
            name: name.to_string(),
            kind,
            span_start: node.span_start,
            span_end: node.span_end,
            exported,
        };
        let ghost shown = made@;
        self.symbols.push(made);
        assert(self.found() =~= before.push(shown));
    }

    fn visit_method(&mut self, element: &AstNode)
        ensures
            final(self).same_place(old(self)),
            final(self).found() == old(self).found() + method_symbols(
                old(self).file_path@,
                old(self).exported_names@.dom(),
                old(self).scope_path@,
                seq![element@],
            ),
    {
        proof {
            reveal_with_fuel(method_symbols, 2);
            assert(seq![element@].drop_last() =~= Seq::empty());
            assert(self.found() + Seq::empty() =~= self.found());
        }
        if let NodeKind::Method { key, kind } = &element.kind {
            if let Some(name) = name_method(key, *kind) {
                let ghost before = self.found();
                self.push_symbol(&name, SymbolKind::Method, element);
                assert(self.found() =~= before + Seq::empty().push(self.found().last()));
            }
        }
    }

    fn visit_elements(&mut self, elements: &Vec<AstNode>)
        ensures
            final(self).same_place(old(self)),
            final(self).found() == old(self).found() + method_symbols(
                old(self).file_path@,
                old(self).exported_names@.dom(),
                old(self).scope_path@,
                syntax::nodes_view(elements@),
            ),
    {
        let ghost all = syntax::nodes_view(elements@);
        proof {
            syntax::lemma_nodes_view(elements@);
            assert(all.take(0) =~= Seq::empty());
            assert(self.found() + Seq::empty() =~= self.found());
        }
        for i in 0..elements.len()
            invariant
                all.len() == elements@.len(),
                forall|k: int| 0 <= k < elements@.len() ==> #[trigger] all[k] == elements@[k]@,
                self.same_place(old(self)),
                self.found() == old(self).found() + method_symbols(
                    old(self).file_path@,
                    old(self).exported_names@.dom(),
                    old(self).scope_path@,
                    all.take(i as int),
                ),
        {
            let ghost before = self.found();
            self.visit_method(&elements[i]);
            proof {
                assert(all.take(i + 1).drop_last() =~= all.take(i as int));
                assert(all[i as int] == elements@[i as int]@);
                reveal_with_fuel(method_symbols, 2);
                assert(seq![all[i as int]].drop_last() =~= Seq::empty());
                assert(self.found() =~= old(self).found() + method_symbols(
                    old(self).file_path@,
                    old(self).exported_names@.dom(),
                    old(self).scope_path@,
                    all.take(i + 1),
                ));
            }
        }
        assert(all.take(elements@.len() as int) =~= all);
    }

    fn visit_class(&mut self, class: &AstNode)
        requires
            class.kind is Class,
        ensures
            final(self).same_place(old(self)),
            final(self).found() == old(self).found() + node_symbols(
                old(self).file_path@,
                old(self).exported_names@.dom(),
                old(self).scope_path@,
                class@,
            ),
    {
        let ghost start = self.found();
        proof {
            syntax::lemma_nodes_view(class.children@);
        }
        if let NodeKind::Class { name, .. } = &class.kind {
            if let Some(name) = name {
                self.push_symbol(name, SymbolKind::Class, class);
                self.scope_path.push(name);
            }
            let ghost named = self.found();
            let ghost all = syntax::nodes_view(class.children@);
            let ghost scopes = self.scope_path@;
            let mut end: usize = class.children.len();
            assert(all.take(end as int) =~= all);
            while end > 0 && !matches!(class.children[end - 1].kind, NodeKind::ClassBody)
                invariant
                    end <= class.children@.len(),
                    all.len() == class.children@.len(),
                    forall|k: int|
                        0 <= k < class.children@.len() ==> #[trigger] all[k]
                            == class.children@[k]@,
                    class_elements(all.take(end as int)) == class_elements(all),
                decreases end,
            {
                assert(all.take(end as int).drop_last() =~= all.take(end - 1));
                assert(all[end - 1] == class.children@[end - 1]@);
                end = end - 1;
            }
            if end > 0 {
                assert(all[end - 1] == class.children@[end - 1]@);
                self.visit_elements(&class.children[end - 1].children);
            } else {
                assert(self.found() + Seq::empty() =~= self.found());
            }
            proof {
                let methods = method_symbols(
                    old(self).file_path@,
                    old(self).exported_names@.dom(),
                    scopes,
                    class_elements(all),
                );
                assert(self.found() == named + methods);
                if name is Some {
                    assert(start.push(named.last()) + methods =~= start + (seq![named.last()]
                        + methods));
                } else {
                    assert(Seq::empty() + methods =~= methods);
                }
            }
            if name.is_some() {
                self.scope_path.pop();
                assert(old(self).scope_path@.push(name->0@).drop_last() =~= old(self).scope_path@);
            }
        }
    }

    fn visit_variables(&mut self, declarators: &Vec<AstNode>)
        ensures
            final(self).same_place(old(self)),
            final(self).found() == old(self).found() + variable_symbols(
                old(self).file_path@,
                old(self).exported_names@.dom(),
                old(self).scope_path@,
                syntax::nodes_view(declarators@),
            ),
    {
        let ghost all = syntax::nodes_view(declarators@);
        proof {
            syntax::lemma_nodes_view(declarators@);
            assert(all.take(0) =~= Seq::empty());
            assert(self.found() + Seq::empty() =~= self.found());
        }
        for i in 0..declarators.len()
            invariant
                all.len() == declarators@.len(),
                forall|k: int|
                    0 <= k < declarators@.len() ==> #[trigger] all[k] == declarators@[k]@,
                self.same_place(old(self)),
                self.found() == old(self).found() + variable_symbols(
                    old(self).file_path@,
                    old(self).exported_names@.dom(),
                    old(self).scope_path@,
                    all.take(i as int),
                ),
        {
            let ghost before = variable_symbols(
                old(self).file_path@,
                old(self).exported_names@.dom(),
                old(self).scope_path@,
                all.take(i as int),
            );
            assert(all.take(i + 1).drop_last() =~= all.take(i as int));
            assert(all[i as int] == declarators@[i as int]@);
            if let NodeKind::VariableDeclarator { name } = &declarators[i].kind {
                if let Some(name) = name {
                    self.push_symbol(name, SymbolKind::Variable, &declarators[i]);
                    assert(self.found() =~= old(self).found() + before.push(self.found().last()));
                }
            }
        }
        assert(all.take(declarators@.len() as int) =~= all);
    }

    fn visit_node(&mut self, node: &AstNode)
        ensures
            final(self).same_place(old(self)),
            final(self).found() == old(self).found() + node_symbols(
                old(self).file_path@,
                old(self).exported_names@.dom(),
                old(self).scope_path@,
                node@,
            ),
        decreases node,
    {
        let ghost start = self.found();
        assert(start + Seq::empty() =~= start);
        match &node.kind {
            NodeKind::Function { name } => {
                if let Some(name) = name {
                    self.push_symbol(name, SymbolKind::Function, node);
                    assert(self.found() =~= start + seq![self.found().last()]);
                }
            },
            NodeKind::ArrowFunction => {},
            NodeKind::Class { .. } => self.visit_class(node),
            NodeKind::Interface { name } => {
                self.push_symbol(name, SymbolKind::Interface, node);
                assert(self.found() =~= start + seq![self.found().last()]);
            },
            NodeKind::TypeAlias { name } => {
                self.push_symbol(name, SymbolKind::TypeAlias, node);
                assert(self.found() =~= start + seq![self.found().last()]);
            },
            NodeKind::Enum { name } => {
                self.push_symbol(name, SymbolKind::Enum, node);
                assert(self.found() =~= start + seq![self.found().last()]);
            },
            NodeKind::VariableDeclaration => self.visit_variables(&node.children),
            _ => self.visit_nodes(&node.children),
        }
    }

    fn visit_nodes(&mut self, nodes: &Vec<AstNode>)
        ensures
            final(self).same_place(old(self)),
            final(self).found() == old(self).found() + tree_symbols(
                old(self).file_path@,
                old(self).exported_names@.dom(),
                old(self).scope_path@,
                syntax::nodes_view(nodes@),
            ),
        decreases nodes,
    {
        let ghost all = syntax::nodes_view(nodes@);
        proof {
            syntax::lemma_nodes_view(nodes@);
            assert(all.take(0) =~= Seq::empty());
            assert(self.found() + Seq::empty() =~= self.found());
        }
        for i in 0..nodes.len()
            invariant
                all.len() == nodes@.len(),
                forall|k: int| 0 <= k < nodes@.len() ==> #[trigger] all[k] == nodes@[k]@,
                self.same_place(old(self)),
                self.found() == old(self).found() + tree_symbols(
                    old(self).file_path@,
                    old(self).exported_names@.dom(),
                    old(self).scope_path@,
                    all.take(i as int),
                ),
        {
            let ghost before = tree_symbols(
                old(self).file_path@,
                old(self).exported_names@.dom(),
                old(self).scope_path@,
                all.take(i as int),
            );
            assert(all.take(i + 1).drop_last() =~= all.take(i as int));
            assert(all[i as int] == nodes@[i as int]@);
            self.visit_node(&nodes[i]);
            assert(self.found() =~= old(self).found() + tree_symbols(
                old(self).file_path@,
                old(self).exported_names@.dom(),
                old(self).scope_path@,
                all.take(i + 1),
            ));
        }
        assert(all.take(nodes@.len() as int) =~= all);
    }
}

/// The symbols that the program of the file at `file_path` declares.
pub fn extract_symbols(program: &Program, file_path: &str) -> (symbols: Vec<Symbol>)
    ensures
        symbols_view(symbols@) == program_symbols(file_path@, program@),
{
    let mut collector = SymbolCollector {
        file_path: file_path.to_string(),
        scope_path: ScopePath::new(),
        exported_names: collect_top_level_exported_names(program),
        symbols: Vec::new(),
    };
    assert(collector.found() =~= Seq::empty());
    collector.visit_nodes(&program.body);
    assert(Seq::empty() + program_symbols(file_path@, program@) =~= program_symbols(
        file_path@,
        program@,
    ));
    collector.symbols
}

// ---- laws ----

/// What stands inside a function or an arrow function makes no difference to
/// the symbols.
pub proof fn law_function_bodies_are_not_entered(
    file: Seq<char>,
    exported: Set<Seq<char>>,
    scopes: Seq<Seq<char>>,
    a: Node,
    b: Node,
)
    requires
        a.kind is Function || a.kind is ArrowFunction,
        b == (Node { children: b.children, ..a }),
    ensures
        node_symbols(file, exported, scopes, a) == node_symbols(file, exported, scopes, b),
{
}

/// Whether a symbol tells its file and whether it is exported rightly.
pub open spec fn is_told_rightly(
    file: Seq<char>,
    exported: Set<Seq<char>>,
    symbol: SymbolView,
) -> bool {
    &&& symbol.file == file
    &&& symbol.exported ==> exported.contains(symbol.name)
    &&& symbol.kind != SymbolKind::Method && exported.contains(symbol.name) ==> symbol.exported
}

spec fn all_told_rightly(
    file: Seq<char>,
    exported: Set<Seq<char>>,
    symbols: Seq<SymbolView>,
) -> bool {
    forall|i: int| 0 <= i < symbols.len() ==> #[trigger] is_told_rightly(file, exported, symbols[i])
}

proof fn lemma_methods_told_rightly(
    file: Seq<char>,
    exported: Set<Seq<char>>,
    scopes: Seq<Seq<char>>,
    elements: Seq<Node>,
)
    ensures
        all_told_rightly(file, exported, method_symbols(file, exported, scopes, elements)),
    decreases elements.len(),
{
    if elements.len() > 0 {
        lemma_methods_told_rightly(file, exported, scopes, elements.drop_last());
    }
}

proof fn lemma_variables_told_rightly(
    file: Seq<char>,
    exported: Set<Seq<char>>,
    declarators: Seq<Node>,
)
    ensures
        all_told_rightly(
            file,
            exported,
            variable_symbols(file, exported, Seq::empty(), declarators),
        ),
    decreases declarators.len(),
{
    if declarators.len() > 0 {
        lemma_variables_told_rightly(file, exported, declarators.drop_last());
    }
}

proof fn lemma_node_told_rightly(file: Seq<char>, exported: Set<Seq<char>>, node: Node)
    ensures
        all_told_rightly(file, exported, node_symbols(file, exported, Seq::empty(), node)),
    decreases node,
{
    match node.kind {
        NodeKind::Class { name, .. } => {
            lemma_methods_told_rightly(
                file,
                exported,
                inside(Seq::empty(), name),
                class_elements(node.children),
            );
        },
        NodeKind::VariableDeclaration => {
            lemma_variables_told_rightly(file, exported, node.children);
        },
        NodeKind::Function { .. } => {},
        NodeKind::ArrowFunction => {},
        NodeKind::Interface { .. } => {},
        NodeKind::TypeAlias { .. } => {},
        NodeKind::Enum { .. } => {},
        _ => {
            lemma_tree_told_rightly(file, exported, node.children);
        },
    }
}

proof fn lemma_tree_told_rightly(file: Seq<char>, exported: Set<Seq<char>>, nodes: Seq<Node>)
    ensures
        all_told_rightly(file, exported, tree_symbols(file, exported, Seq::empty(), nodes)),
    decreases nodes,
{
    if nodes.len() > 0 {
        lemma_tree_told_rightly(file, exported, nodes.drop_last());
        lemma_node_told_rightly(file, exported, nodes.last());
    }
}

/// Every symbol belongs to the file; one that counts as exported has a name
/// that the module exports; and a function, class, interface, type alias,
/// enum or variable whose name the module exports counts as exported.
pub proof fn law_symbols_are_exported_by_name(file: Seq<char>, body: Seq<Node>, i: int)
    requires
        0 <= i < program_symbols(file, body).len(),
    ensures
        is_told_rightly(file, exported_names(body), program_symbols(file, body)[i]),
{
    lemma_tree_told_rightly(file, exported_names(body), body);
}

/// A module exports what its parts export, in whichever order they stand.
pub proof fn law_export_order_is_irrelevant(a: Seq<Node>, b: Seq<Node>)
    ensures
        exported_names(a + b) == exported_names(a).union(exported_names(b)),
        exported_names(a + b) == exported_names(b + a),
{
    lemma_exports_of_two_parts(a, b);
    lemma_exports_of_two_parts(b, a);
    assert(exported_names(a + b) =~= exported_names(b + a));
}

proof fn lemma_exports_of_two_parts(a: Seq<Node>, b: Seq<Node>)
    ensures
        exported_names(a + b) == exported_names(a).union(exported_names(b)),
    decreases b.len(),
{
    if b.len() == 0 {
        assert(a + b =~= a);
        assert(exported_names(a).union(Set::empty()) =~= exported_names(a));
    } else {
        assert((a + b).drop_last() =~= a + b.drop_last());
        lemma_exports_of_two_parts(a, b.drop_last());
        assert(exported_names(a + b) =~= exported_names(a).union(exported_names(b)));
    }
}

/// Handing on the exports of another module exports nothing of this file.
pub proof fn law_reexports_export_nothing_here(statement: Node, source: Seq<char>, type_only: bool)
    requires
        statement.kind == (NodeKind::ExportNamed {
            source: Some(source),
            type_only,
            has_declaration: false,
        }),
    ensures
        statement_exports(statement) == Set::<Seq<char>>::empty(),
{
}

/// All that a statement exports together with its declaration is exported,
/// wherever the statement stands and however much it declares at once.
pub proof fn law_exported_declarations_are_exported(body: Seq<Node>, i: int)
    requires
        0 <= i < body.len(),
        body[i].kind matches NodeKind::ExportNamed { has_declaration, .. } && has_declaration,
        body[i].children.len() > 0,
    ensures
        declared_names(body[i].children[0]).subset_of(exported_names(body)),
    decreases body.len(),
{
    if i < body.len() - 1 {
        law_exported_declarations_are_exported(body.drop_last(), i);
    }
}

/// Whether a declaration declares `name`: as a function, class, interface, type
/// alias or enum of that name, or as one of the variables that it declares at
/// once.
pub open spec fn declares(declaration: Node, name: Seq<char>) -> bool {
    match declaration.kind {
        NodeKind::Function { name: own } => own == Some(name),
        NodeKind::Class { name: own, .. } => own == Some(name),
        NodeKind::Interface { name: own } => own == name,
        NodeKind::TypeAlias { name: own } => own == name,
        NodeKind::Enum { name: own } => own == name,
        NodeKind::VariableDeclaration => exists|k: int|
            0 <= k < declaration.children.len() && (#[trigger] declaration.children[k]).kind == (
            NodeKind::VariableDeclarator { name: Some(name) }),
        _ => false,
    }
}

/// Whether a statement exports `name`: together with its declaration, in a list
/// of names of this file, as what is declared or named in a default export, or
/// as the value of a property in an object that is exported by default, or its
/// key where the value is no plain name.
pub open spec fn exports(statement: Node, name: Seq<char>) -> bool {
    match statement.kind {
        NodeKind::ExportNamed { has_declaration: true, .. } => statement.children.len() > 0
            && declares(statement.children[0], name),
        NodeKind::ExportNamed { source: None, .. } => exists|k: int|
            0 <= k < statement.children.len() && (#[trigger] statement.children[k]).kind == (
            NodeKind::ExportSpecifier { local: name }),
        NodeKind::ExportDefault { form: DefaultExport::Declared(own) } => own == Some(name),
        NodeKind::ExportDefault { form: DefaultExport::Binding(own) } => own == name,
        NodeKind::ExportDefault { form: DefaultExport::Object } => statement.children.len() > 0
            && exists|k: int|
            0 <= k < statement.children[0].children.len() && {
                let property = (#[trigger] statement.children[0].children[k]).kind;
                ||| property matches NodeKind::ObjectProperty { value: Some(own), .. } && own == name
                ||| property matches NodeKind::ObjectProperty { value: None, key: Some(own) } && own
                    == name
            },
        _ => false,
    }
}

proof fn lemma_declarator_names(nodes: Seq<Node>, name: Seq<char>)
    ensures
        declarator_names(nodes).contains(name) <==> exists|k: int|
            0 <= k < nodes.len() && (#[trigger] nodes[k]).kind == (NodeKind::VariableDeclarator {
                name: Some(name),
            }),
    decreases nodes.len(),
{
    if nodes.len() > 0 {
        let init = nodes.drop_last();
        lemma_declarator_names(init, name);
        assert(nodes.last() == nodes[nodes.len() - 1]);
        assert forall|k: int| 0 <= k < init.len() implies #[trigger] init[k] == nodes[k] by {}
        if declarator_names(nodes).contains(name) && declarator_names(init).contains(name) {
            let k = choose|k: int|
                0 <= k < init.len() && (#[trigger] init[k]).kind == (NodeKind::VariableDeclarator {
                    name: Some(name),
                });
            assert(nodes[k] == init[k]);
        }
        if exists|k: int|
            0 <= k < nodes.len() && (#[trigger] nodes[k]).kind == (NodeKind::VariableDeclarator {
                name: Some(name),
            }) {
            let k = choose|k: int|
                0 <= k < nodes.len() && (#[trigger] nodes[k]).kind == (
                NodeKind::VariableDeclarator { name: Some(name) });
            if k < init.len() {
                assert(init[k] == nodes[k]);
            }
        }
    }
}

proof fn lemma_specifier_names(nodes: Seq<Node>, name: Seq<char>)
    ensures
        specifier_names(nodes).contains(name) <==> exists|k: int|
            0 <= k < nodes.len() && (#[trigger] nodes[k]).kind == (NodeKind::ExportSpecifier {
                local: name,
            }),
    decreases nodes.len(),
{
    if nodes.len() > 0 {
        let init = nodes.drop_last();
        lemma_specifier_names(init, name);
        assert(nodes.last() == nodes[nodes.len() - 1]);
        if specifier_names(nodes).contains(name) && specifier_names(init).contains(name) {
            let k = choose|k: int|
                0 <= k < init.len() && (#[trigger] init[k]).kind == (NodeKind::ExportSpecifier {
                    local: name,
                });
            assert(nodes[k] == init[k]);
        }
        if exists|k: int|
            0 <= k < nodes.len() && (#[trigger] nodes[k]).kind == (NodeKind::ExportSpecifier {
                local: name,
            }) {
            let k = choose|k: int|
                0 <= k < nodes.len() && (#[trigger] nodes[k]).kind == (NodeKind::ExportSpecifier {
                    local: name,
                });
            if k < init.len() {
                assert(init[k] == nodes[k]);
            }
        }
    }
}

spec fn stands_for(property: NodeKind<Seq<char>>, name: Seq<char>) -> bool {
    ||| property matches NodeKind::ObjectProperty { value: Some(own), .. } && own == name
    ||| property matches NodeKind::ObjectProperty { value: None, key: Some(own) } && own == name
}

proof fn lemma_property_names(nodes: Seq<Node>, name: Seq<char>)
    ensures
        property_names(nodes).contains(name) <==> exists|k: int|
            0 <= k < nodes.len() && stands_for((#[trigger] nodes[k]).kind, name),
    decreases nodes.len(),
{
    if nodes.len() > 0 {
        let init = nodes.drop_last();
        lemma_property_names(init, name);
        assert(nodes.last() == nodes[nodes.len() - 1]);
        if property_names(nodes).contains(name) && property_names(init).contains(name) {
            let k = choose|k: int|
                0 <= k < init.len() && stands_for((#[trigger] init[k]).kind, name);
            assert(nodes[k] == init[k]);
        }
        if exists|k: int| 0 <= k < nodes.len() && stands_for((#[trigger] nodes[k]).kind, name) {
            let k = choose|k: int|
                0 <= k < nodes.len() && stands_for((#[trigger] nodes[k]).kind, name);
            if k < init.len() {
                assert(init[k] == nodes[k]);
            }
        }
    }
}

proof fn lemma_statement_exports(statement: Node, name: Seq<char>)
    ensures
        statement_exports(statement).contains(name) <==> exports(statement, name),
{
    match statement.kind {
        NodeKind::ExportNamed { source, has_declaration, .. } => {
            if has_declaration {
                if statement.children.len() > 0 {
                    lemma_declarator_names(statement.children[0].children, name);
                }
            } else {
                lemma_specifier_names(statement.children, name);
            }
        },
        NodeKind::ExportDefault { form } => {
            if form is Object && statement.children.len() > 0 {
                let properties = statement.children[0].children;
                lemma_property_names(properties, name);
                if property_names(properties).contains(name) {
                    let k = choose|k: int|
                        0 <= k < properties.len() && stands_for(
                            (#[trigger] properties[k]).kind,
                            name,
                        );
                    assert(statement.children[0].children[k].kind == properties[k].kind);
                }
                if exports(statement, name) {
                    let k = choose|k: int|
                        0 <= k < statement.children[0].children.len() && {
                            let property = (#[trigger] statement.children[0].children[k]).kind;
                            ||| property matches NodeKind::ObjectProperty { value: Some(own), .. }
                                && own == name
                            ||| property matches NodeKind::ObjectProperty {
                                value: None,
                                key: Some(own),
                            } && own == name
                        };
                    assert(stands_for(properties[k].kind, name));
                }
            }
        },
        _ => {},
    }
}

/// A module exports a name exactly if one of its statements exports it,
/// wherever it stands.
pub proof fn law_modules_export_what_a_statement_exports(body: Seq<Node>, name: Seq<char>)
    ensures
        exported_names(body).contains(name) <==> exists|i: int|
            0 <= i < body.len() && exports(#[trigger] body[i], name),
    decreases body.len(),
{
    if body.len() > 0 {
        let init = body.drop_last();
        law_modules_export_what_a_statement_exports(init, name);
        lemma_statement_exports(body.last(), name);
        assert(body.last() == body[body.len() - 1]);
        if exported_names(init).contains(name) {
            let i = choose|i: int| 0 <= i < init.len() && exports(#[trigger] init[i], name);
            assert(body[i] == init[i]);
        }
        if exists|i: int| 0 <= i < body.len() && exports(#[trigger] body[i], name) {
            let i = choose|i: int| 0 <= i < body.len() && exports(#[trigger] body[i], name);
            if i < init.len() {
                assert(init[i] == body[i]);
            }
        }
    }
}

/// What is declared or named in a default export is exported, wherever the
/// statement stands.
pub proof fn law_default_exports_are_exported(body: Seq<Node>, i: int, name: Seq<char>)
    requires
        0 <= i < body.len(),
        body[i].kind == (NodeKind::ExportDefault { form: DefaultExport::Declared(Some(name)) })
            || body[i].kind == (NodeKind::ExportDefault { form: DefaultExport::Binding(name) }),
    ensures
        exported_names(body).contains(name),
{
    law_modules_export_what_a_statement_exports(body, name);
    assert(exports(body[i], name));
}

/// The kind and the name of what a node declares by itself.
pub open spec fn declares_alone(node: Node) -> Option<(SymbolKind, Seq<char>)> {
    match node.kind {
        NodeKind::Function { name: Some(name) } => Some((SymbolKind::Function, name)),
        NodeKind::Class { name: Some(name), .. } => Some((SymbolKind::Class, name)),
        NodeKind::Interface { name } => Some((SymbolKind::Interface, name)),
        NodeKind::TypeAlias { name } => Some((SymbolKind::TypeAlias, name)),
        NodeKind::Enum { name } => Some((SymbolKind::Enum, name)),
        _ => None,
    }
}

/// A declaration at top level makes a symbol with its name, kind and span. The
/// id is the file, the name and the kind with `::` between them, and the symbol
/// is exported exactly if its name is.
pub proof fn law_declarations_are_symbols(
    file: Seq<char>,
    exported: Set<Seq<char>>,
    node: Node,
    kind: SymbolKind,
    name: Seq<char>,
)
    requires
        declares_alone(node) == Some((kind, name)),
    ensures
        node_symbols(file, exported, Seq::empty(), node).len() >= 1,
        !(node.kind is Class) ==> node_symbols(file, exported, Seq::empty(), node).len() == 1,
        node_symbols(file, exported, Seq::empty(), node)[0] == (SymbolView {
            id: file + "::"@ + name + "::"@ + (match kind {
                SymbolKind::Function => "function"@,
                SymbolKind::Class => "class"@,
                SymbolKind::Method => "method"@,
                SymbolKind::Interface => "interface"@,
                SymbolKind::TypeAlias => "type_alias"@,
                SymbolKind::Enum => "enum"@,
                SymbolKind::Variable => "variable"@,
            }),
            file,
            name,
            kind,
            span_start: node.span_start,
            span_end: node.span_end,
            exported: exported.contains(name),
        }),
{
}

/// Each variable with a name makes a symbol, in the order in which they are
/// declared; patterns make none.
pub proof fn law_variables_are_symbols(
    file: Seq<char>,
    exported: Set<Seq<char>>,
    before: Seq<Node>,
    declarator: Node,
)
    ensures
        node_symbols(
            file,
            exported,
            Seq::empty(),
            variables(before.push(declarator)),
        ) == node_symbols(file, exported, Seq::empty(), variables(before)) + (
        match declarator.kind {
            NodeKind::VariableDeclarator { name: Some(name) } => seq![
                SymbolView {
                    id: file + "::"@ + name + "::"@ + "variable"@,
                    file,
                    name,
                    kind: SymbolKind::Variable,
                    span_start: declarator.span_start,
                    span_end: declarator.span_end,
                    exported: exported.contains(name),
                },
            ],
            _ => Seq::empty(),
        }),
        node_symbols(file, exported, Seq::empty(), variables(Seq::empty())).len() == 0,
{
    assert(before.push(declarator).drop_last() =~= before);
    let old_symbols = variable_symbols(file, exported, Seq::empty(), before);
    assert(old_symbols + Seq::empty() =~= old_symbols);
    assert(variable_symbols(file, exported, Seq::empty(), before.push(declarator))
        =~= node_symbols(file, exported, Seq::empty(), variables(before.push(declarator))));
    if let NodeKind::VariableDeclarator { name: Some(name) } = declarator.kind {
        let made = symbol(
            file,
            exported,
            Seq::empty(),
            name,
            SymbolKind::Variable,
            declarator,
        );
        assert(old_symbols.push(made) =~= old_symbols + seq![made]);
    }
}

/// The declaration of these variables.
pub open spec fn variables(declarators: Seq<Node>) -> Node {
    Node {
        kind: NodeKind::VariableDeclaration,
        span_start: 0,
        span_end: 0,
        children: declarators,
    }
}

/// Each method with a plain or a private name makes a symbol, in the order in
/// which they stand in the class; one with a computed key and any other element
/// make none. A method is never exported by itself.
pub proof fn law_methods_are_symbols(
    file: Seq<char>,
    exported: Set<Seq<char>>,
    class: Seq<char>,
    before: Seq<Node>,
    element: Node,
)
    ensures
        method_symbols(file, exported, seq![class], before.push(element)) == method_symbols(
            file,
            exported,
            seq![class],
            before,
        ) + (match element.kind {
            NodeKind::Method { key, kind } if !(key is Computed) => {
                let name = (match key {
                    MethodKey::Static(name) => name,
                    MethodKey::Private(name) => "#"@ + name,
                    MethodKey::Computed => Seq::empty(),
                }) + (match kind {
                    MethodKind::Constructor => " (constructor)"@,
                    MethodKind::Getter => " (get)"@,
                    MethodKind::Setter => " (set)"@,
                    MethodKind::Method => Seq::empty(),
                });
                seq![
                    SymbolView {
                        id: file + "::"@ + class + "::"@ + name + "::"@ + "method"@,
                        file,
                        name,
                        kind: SymbolKind::Method,
                        span_start: element.span_start,
                        span_end: element.span_end,
                        exported: false,
                    },
                ]
            },
            _ => Seq::empty(),
        }),
{
    let scopes = seq![class];
    let old_symbols = method_symbols(file, exported, scopes, before);
    assert(before.push(element).drop_last() =~= before);
    assert(old_symbols + Seq::empty() =~= old_symbols);
    assert(text::join(scopes, "::"@) == class);
    if let NodeKind::Method { key, kind } = element.kind {
        if let Some(name) = method_name(key, kind) {
            let made = symbol(file, exported, scopes, name, SymbolKind::Method, element);
            assert(old_symbols.push(made) =~= old_symbols + seq![made]);
            if kind is Method {
                assert(name + Seq::empty() =~= name);
            }
        }
    }
}

/// A class has the symbols of its methods after its own, under its name.
pub proof fn law_classes_hold_their_methods(
    file: Seq<char>,
    exported: Set<Seq<char>>,
    class: Node,
    name: Seq<char>,
    heading: Seq<Node>,
    body: Node,
)
    requires
        class.kind matches NodeKind::Class { name: own, .. } && own == Some(name),
        class.children == heading.push(body),
        body.kind is ClassBody,
    ensures
        node_symbols(file, exported, Seq::empty(), class).drop_first() == method_symbols(
            file,
            exported,
            seq![name],
            body.children,
        ),
{
    assert(Seq::<Seq<char>>::empty().push(name) =~= seq![name]);
    assert(class.children.last() == body);
    let methods = method_symbols(file, exported, seq![name], body.children);
    assert(node_symbols(file, exported, Seq::empty(), class).drop_first() =~= methods);
}

/// Whether `wanted` is `node` or stands in it with no declaration and no arrow
/// function around it.
pub open spec fn reached_in(node: Node, wanted: Node) -> bool
    decreases node,
{
    ||| node == wanted
    ||| {
        &&& !(node.kind is Function || node.kind is ArrowFunction || node.kind is Class || node.kind
            is Interface || node.kind is TypeAlias || node.kind is Enum || node.kind
            is VariableDeclaration)
        &&& reached_among(node.children, wanted)
    }
}

/// Whether `wanted` is reached in one of these nodes.
pub open spec fn reached_among(nodes: Seq<Node>, wanted: Node) -> bool
    decreases nodes,
{
    nodes.len() > 0 && (reached_among(nodes.drop_last(), wanted) || reached_in(
        nodes.last(),
        wanted,
    ))
}

proof fn lemma_reached_in(
    file: Seq<char>,
    exported: Set<Seq<char>>,
    node: Node,
    wanted: Node,
    k: int,
)
    requires
        reached_in(node, wanted),
        0 <= k < node_symbols(file, exported, Seq::empty(), wanted).len(),
    ensures
        node_symbols(file, exported, Seq::empty(), node).contains(
            node_symbols(file, exported, Seq::empty(), wanted)[k],
        ),
    decreases node,
{
    if node != wanted {
        lemma_reached_among(file, exported, node.children, wanted, k);
    }
}

proof fn lemma_reached_among(
    file: Seq<char>,
    exported: Set<Seq<char>>,
    nodes: Seq<Node>,
    wanted: Node,
    k: int,
)
    requires
        reached_among(nodes, wanted),
        0 <= k < node_symbols(file, exported, Seq::empty(), wanted).len(),
    ensures
        tree_symbols(file, exported, Seq::empty(), nodes).contains(
            node_symbols(file, exported, Seq::empty(), wanted)[k],
        ),
    decreases nodes,
{
    let sought = node_symbols(file, exported, Seq::empty(), wanted)[k];
    let all = tree_symbols(file, exported, Seq::empty(), nodes);
    let before = tree_symbols(file, exported, Seq::empty(), nodes.drop_last());
    let own = node_symbols(file, exported, Seq::empty(), nodes.last());
    if reached_among(nodes.drop_last(), wanted) {
        lemma_reached_among(file, exported, nodes.drop_last(), wanted, k);
        let at = before.index_of(sought);
        assert(before[at] == sought);
        assert(all[at] == sought);
    } else {
        lemma_reached_in(file, exported, nodes.last(), wanted, k);
        let at = own.index_of(sought);
        assert(own[at] == sought);
        assert(all[before.len() + at] == sought);
    }
}

/// No declaration is missed: whatever stands around it, as long as that is no
/// function, class or other declaration, its symbols are among those of the
/// file.
pub proof fn law_declarations_are_found_wherever_they_stand(
    file: Seq<char>,
    body: Seq<Node>,
    wanted: Node,
    k: int,
)
    requires
        reached_among(body, wanted),
        0 <= k < node_symbols(file, exported_names(body), Seq::empty(), wanted).len(),
    ensures
        program_symbols(file, body).contains(
            node_symbols(file, exported_names(body), Seq::empty(), wanted)[k],
        ),
{
    lemma_reached_among(file, exported_names(body), body, wanted, k);
}

/// Nodes that declare nothing make no difference: their symbols are those of
/// what stands in them, and no others.
pub proof fn law_other_nodes_hold_what_stands_in_them(
    file: Seq<char>,
    exported: Set<Seq<char>>,
    node: Node,
)
    requires
        !(node.kind is Function || node.kind is ArrowFunction || node.kind is Class || node.kind
            is Interface || node.kind is TypeAlias || node.kind is Enum || node.kind
            is VariableDeclaration),
    ensures
        node_symbols(file, exported, Seq::empty(), node) == tree_symbols(
            file,
            exported,
            Seq::empty(),
            node.children,
        ),
{
}

/// The symbols of a row of nodes are those of the nodes, one after another.
pub proof fn law_symbols_stand_in_order(
    file: Seq<char>,
    exported: Set<Seq<char>>,
    before: Seq<Node>,
    node: Node,
)
    ensures
        tree_symbols(file, exported, Seq::empty(), before.push(node)) == tree_symbols(
            file,
            exported,
            Seq::empty(),
            before,
        ) + node_symbols(file, exported, Seq::empty(), node),
        tree_symbols(file, exported, Seq::empty(), Seq::empty()).len() == 0,
{
    assert(before.push(node).drop_last() =~= before);
}

/// Functions without a name and arrow functions declare nothing, and a class
/// without a name declares its methods only.
pub proof fn law_what_has_no_name_declares_nothing(
    file: Seq<char>,
    exported: Set<Seq<char>>,
    node: Node,
    heading: Seq<Node>,
    body: Node,
)
    ensures
        node.kind == (NodeKind::<Seq<char>>::Function { name: None }) || node.kind is ArrowFunction
            ==> node_symbols(file, exported, Seq::empty(), node).len() == 0,
        (node.kind matches NodeKind::Class { name: None, .. }) && node.children == heading.push(
            body,
        ) && body.kind is ClassBody ==> node_symbols(file, exported, Seq::empty(), node)
            == method_symbols(file, exported, Seq::empty(), body.children),
{
    if (node.kind matches NodeKind::Class { name: None, .. }) && node.children == heading.push(body)
        && body.kind is ClassBody {
        assert(node.children.last() == body);
        let methods = method_symbols(file, exported, Seq::empty(), body.children);
        assert(Seq::empty() + methods =~= methods);
    }
}

} // verus!
