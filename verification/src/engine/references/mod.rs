//! What the names that are called or extended in a file refer to: a function
//! or class of the same file, one of another file that an import leads to, or
//! nothing that can be told. Only functions are what is called, and only
//! classes what is extended.
//!
//! The symbols and imports that the earlier stages found are looked up, never
//! collected anew.
pub mod walk;

use crate::engine::batch;
use crate::engine::parse::recorder;
use crate::engine::parse::source_type;
use crate::engine::parse::syntax::Node;
use crate::engine::parse::syntax::NodeKind;
use crate::engine::parse::syntax::Program;
use crate::engine::resolve;
use crate::engine::resolve::ImportEdgeView;
use crate::engine::resolve::ImportTarget;
use crate::engine::resolve::ImportTargetView;
use crate::engine::resolve::LocalBinding;
use crate::engine::resolve::LocalBindingView;
use crate::engine::resolve::ResolveBatch;
use crate::engine::semantic::symbol_classify;
use crate::engine::semantic::symbol_classify::SymbolKind;
use crate::engine::semantic::symbol_classify::SymbolView;
use crate::engine::semantic::SemanticBatch;
use crate::error::FileError;
use crate::error::FileErrorView;
use crate::string_map::StringMap;
use crate::text;
use crate::vfs::Vfs;
use crate::vfs::VfsView;
use vstd::prelude::*;
use walk::MentionView;

verus! {

/// What a name refers to.
#[derive(Debug, Clone)]
pub enum ReferenceTarget {
    /// A function or class of the same file, by its id.
    SameFile(String),
    /// A function or class of another file, by its id.
    CrossFile(String),
    /// An import that leads to no function or class that can be told.
    UnresolvedImport(String),
    /// Neither a function or class of the file nor an import.
    Unmatched,
}

/// A `ReferenceTarget` by its characters.
pub enum ReferenceTargetView {
    SameFile(Seq<char>),
    CrossFile(Seq<char>),
    UnresolvedImport(Seq<char>),
    Unmatched,
}

impl View for ReferenceTarget {
    type V = ReferenceTargetView;

    open spec fn view(&self) -> ReferenceTargetView {
        match *self {
            ReferenceTarget::SameFile(id) => ReferenceTargetView::SameFile(id@),
            ReferenceTarget::CrossFile(id) => ReferenceTargetView::CrossFile(id@),
            ReferenceTarget::UnresolvedImport(what) => ReferenceTargetView::UnresolvedImport(
                what@,
            ),
            ReferenceTarget::Unmatched => ReferenceTargetView::Unmatched,
        }
    }
}

/// A call, with what it refers to.
#[derive(Debug, Clone)]
pub struct CallReference {
    pub from_symbol_id: String,
    pub callee_name: String,
    pub target: ReferenceTarget,
}

/// A `CallReference` by its characters.
pub struct CallReferenceView {
    pub from_symbol_id: Seq<char>,
    pub callee_name: Seq<char>,
    pub target: ReferenceTargetView,
}

impl View for CallReference {
    type V = CallReferenceView;

    open spec fn view(&self) -> CallReferenceView {
        CallReferenceView {
            from_symbol_id: self.from_symbol_id@,
            callee_name: self.callee_name@,
            target: self.target@,
        }
    }
}

/// A superclass, with what it refers to.
#[derive(Debug, Clone)]
pub struct ExtendsReference {
    pub from_symbol_id: String,
    pub superclass_name: String,
    pub target: ReferenceTarget,
}

/// An `ExtendsReference` by its characters.
pub struct ExtendsReferenceView {
    pub from_symbol_id: Seq<char>,
    pub superclass_name: Seq<char>,
    pub target: ReferenceTargetView,
}

impl View for ExtendsReference {
    type V = ExtendsReferenceView;

    open spec fn view(&self) -> ExtendsReferenceView {
        ExtendsReferenceView {
            from_symbol_id: self.from_symbol_id@,
            superclass_name: self.superclass_name@,
            target: self.target@,
        }
    }
}

/// Calls by their characters.
pub open spec fn calls_view(calls: Seq<CallReference>) -> Seq<CallReferenceView> {
    calls.map_values(|c: CallReference| c@)
}

/// Superclasses by their characters.
pub open spec fn extends_view(extends: Seq<ExtendsReference>) -> Seq<ExtendsReferenceView> {
    extends.map_values(|e: ExtendsReference| e@)
}

// ---- what a name refers to ----

/// How a name is referred to.
#[derive(Debug, Clone, Copy, PartialEq, Eq, Structural)]
pub enum ReferenceKind {
    Call,
    Extends,
}

/// What a name that is referred to in this way can stand for.
pub open spec fn target_kind(how: ReferenceKind) -> SymbolKind {
    match how {
        ReferenceKind::Call => SymbolKind::Function,
        ReferenceKind::Extends => SymbolKind::Class,
    }
}

/// Whether `symbol` can be referred to in this way under `name` in `file`.
pub open spec fn is_target(
    symbol: SymbolView,
    how: ReferenceKind,
    file: Seq<char>,
    name: Seq<char>,
) -> bool {
    &&& symbol.kind == target_kind(how)
    &&& symbol.file == file
    &&& symbol.name == name
}

/// The id of the symbol of `file` that can be referred to in this way under
/// `name`: of several, the last.
pub open spec fn symbol_id(
    symbols: Seq<SymbolView>,
    how: ReferenceKind,
    file: Seq<char>,
    name: Seq<char>,
) -> Option<Seq<char>>
    decreases symbols.len(),
{
    if symbols.len() == 0 {
        None
    } else if is_target(symbols.last(), how, file, name) {
        Some(symbols.last().id)
    } else {
        symbol_id(symbols.drop_last(), how, file, name)
    }
}

/// The name under which `name` is imported, where it is bound: of several
/// bindings the last.
pub open spec fn bound_as(bindings: Seq<LocalBindingView>, name: Seq<char>) -> Option<
    Option<Seq<char>>,
>
    decreases bindings.len(),
{
    if bindings.len() == 0 {
        None
    } else if bindings.last().local_name == name {
        Some(bindings.last().imported_name)
    } else {
        bound_as(bindings.drop_last(), name)
    }
}

/// The import that binds `name` in `file`: under which name, and what it
/// comes to. Of several imports the last counts.
pub open spec fn binding(edges: Seq<ImportEdgeView>, file: Seq<char>, name: Seq<char>) -> Option<
    (Option<Seq<char>>, ImportTargetView),
>
    decreases edges.len(),
{
    if edges.len() == 0 {
        None
    } else if edges.last().from_file == file && bound_as(edges.last().local_bindings, name)
        is Some {
        Some((bound_as(edges.last().local_bindings, name)->0, edges.last().target))
    } else {
        binding(edges.drop_last(), file, name)
    }
}

/// What an import refers to, given what it comes to and the id of what it
/// names there.
pub open spec fn imported(
    target: ImportTargetView,
    id: Option<Seq<char>>,
) -> ReferenceTargetView {
    match target {
        ImportTargetView::LocalFile(path) => match id {
            Some(id) => ReferenceTargetView::CrossFile(id),
            None => ReferenceTargetView::UnresolvedImport(path),
        },
        ImportTargetView::External(package) => ReferenceTargetView::UnresolvedImport(package),
        ImportTargetView::UnresolvedLocal(reason) => ReferenceTargetView::UnresolvedImport(reason),
    }
}

/// What `name` refers to in `file`. A symbol of the file itself comes before
/// an import of the same name. What is imported by default or as
/// a namespace names nothing in the other file.
pub open spec fn referent(
    symbols: Seq<SymbolView>,
    edges: Seq<ImportEdgeView>,
    how: ReferenceKind,
    file: Seq<char>,
    name: Seq<char>,
) -> ReferenceTargetView {
    match symbol_id(symbols, how, file, name) {
        Some(id) => ReferenceTargetView::SameFile(id),
        None => match binding(edges, file, name) {
            None => ReferenceTargetView::Unmatched,
            Some((original, target)) => imported(
                target,
                match (target, original) {
                    (ImportTargetView::LocalFile(path), Some(original)) => symbol_id(
                        symbols,
                        how,
                        path,
                        original,
                    ),
                    _ => None,
                },
            ),
        },
    }
}

// ---- the index ----

/// Symbols and imports, ready to be looked up: for each file the ids of its
/// functions and of its classes by name, and its imports by the name that they
/// bind.
pub struct ReferenceIndex<'a> {
    functions: StringMap<StringMap<&'a str>>,
    classes: StringMap<StringMap<&'a str>>,
    bindings: StringMap<StringMap<(Option<&'a str>, &'a ImportTarget)>>,
}

/// The id that a table holds for `name` of `file`.
spec fn id_in(ids: StringMap<StringMap<&str>>, file: Seq<char>, name: Seq<char>) -> Option<
    Seq<char>,
> {
    if ids@.contains_key(file) && ids@[file]@.contains_key(name) {
        Some(ids@[file]@[name]@)
    } else {
        None
    }
}

fn add_id<'a>(ids: &mut StringMap<StringMap<&'a str>>, file: &str, name: &str, id: &'a str)
    ensures
        forall|f: Seq<char>, n: Seq<char>| #[trigger]
            id_in(*final(ids), f, n) == if f == file@ && n == name@ {
                Some(id@)
            } else {
                id_in(*old(ids), f, n)
            },
{
    let mut names: StringMap<&'a str> = match ids.remove(file) {
        Some(names) => names,
        None => StringMap::new(),
    };
    names.insert(name.to_string(), id);
    ids.insert(file.to_string(), names);
}

impl<'a> ReferenceIndex<'a> {
    /// The id that the index holds for `name` of `file`.
    pub closed spec fn id_at(
        &self,
        how: ReferenceKind,
        file: Seq<char>,
        name: Seq<char>,
    ) -> Option<Seq<char>> {
        match how {
            ReferenceKind::Call => id_in(self.functions, file, name),
            ReferenceKind::Extends => id_in(self.classes, file, name),
        }
    }

    /// The import that the index holds for `name` in `file`.
    pub closed spec fn import_at(&self, file: Seq<char>, name: Seq<char>) -> Option<
        (Option<Seq<char>>, ImportTargetView),
    > {
        if self.bindings@.contains_key(file) && self.bindings@[file]@.contains_key(name) {
            let held = self.bindings@[file]@[name];
            Some((text::opt_str_view(held.0), held.1@))
        } else {
            None
        }
    }

    /// Whether the index holds these symbols and imports.
    pub open spec fn indexes(&self, symbols: Seq<SymbolView>, edges: Seq<ImportEdgeView>) -> bool {
        &&& forall|how: ReferenceKind, file: Seq<char>, name: Seq<char>| #[trigger]
            self.id_at(how, file, name) == symbol_id(symbols, how, file, name)
        &&& forall|file: Seq<char>, name: Seq<char>| #[trigger]
            self.import_at(file, name) == binding(edges, file, name)
    }

    fn add_symbol(&mut self, how: ReferenceKind, file: &str, name: &str, id: &'a str)
        ensures
            forall|h: ReferenceKind, f: Seq<char>, n: Seq<char>| #[trigger]
                final(self).id_at(h, f, n) == if h == how && f == file@ && n == name@ {
                    Some(id@)
                } else {
                    old(self).id_at(h, f, n)
                },
            forall|f: Seq<char>, n: Seq<char>| #[trigger]
                final(self).import_at(f, n) == old(self).import_at(f, n),
    {
        match how {
            ReferenceKind::Call => add_id(&mut self.functions, file, name, id),
            ReferenceKind::Extends => add_id(&mut self.classes, file, name, id),
        }
    }

    fn add_bindings(&mut self, file: &str, added: &'a Vec<LocalBinding>, target: &'a ImportTarget)
        ensures
            forall|h: ReferenceKind, f: Seq<char>, n: Seq<char>| #[trigger]
                final(self).id_at(h, f, n) == old(self).id_at(h, f, n),
            forall|f: Seq<char>, n: Seq<char>| #[trigger]
                final(self).import_at(f, n) == match bound_as(resolve::bindings_view(added@), n) {
                    Some(original) => if f == file@ {
                        Some((original, target@))
                    } else {
                        old(self).import_at(f, n)
                    },
                    None => old(self).import_at(f, n),
                },
    {
        let ghost all = resolve::bindings_view(added@);
        let mut names: StringMap<(Option<&'a str>, &'a ImportTarget)> = match self.bindings.remove(
            file,
        ) {
            Some(names) => names,
            None => StringMap::new(),
        };
        let ghost before = names@;
        for i in 0..added.len()
            invariant
                all == resolve::bindings_view(added@),
                forall|n: Seq<char>| #[trigger]
                    names@.contains_key(n) <==> before.contains_key(n) || bound_as(
                        all.take(i as int),
                        n,
                    ) is Some,
                forall|n: Seq<char>|
                    (#[trigger] names@.contains_key(n)) ==> match bound_as(all.take(i as int), n) {
                        Some(original) => text::opt_str_view(names@[n].0) == original
                            && names@[n].1@ == target@,
                        None => names@[n] == before[n],
                    },
        {
            assert(all.take(i + 1).drop_last() =~= all.take(i as int));
            assert(all[i as int] == added@[i as int]@);
            let original: Option<&'a str> = match &added[i].imported_name {
                Some(name) => Some(name.as_str()),
                None => None,
            };
            names.insert(added[i].local_name.clone(), (original, target));
        }
        assert(all.take(added@.len() as int) =~= all);
        self.bindings.insert(file.to_string(), names);
    }

    /// The index of the symbols and imports that the earlier stages found.
    pub fn build(semantic: &'a SemanticBatch, resolve: &'a ResolveBatch) -> (index: Self)
        ensures
            index.indexes(
                symbol_classify::symbols_view(semantic.symbols@),
                resolve::edges_view(resolve.edges@),
            ),
    {
        let ghost symbols = symbol_classify::symbols_view(semantic.symbols@);
        let ghost edges = resolve::edges_view(resolve.edges@);
        let mut index = ReferenceIndex {
            functions: StringMap::new(),
            classes: StringMap::new(),
            bindings: StringMap::new(),
        };
        for i in 0..semantic.symbols.len()
            invariant
                symbols == symbol_classify::symbols_view(semantic.symbols@),
                forall|h: ReferenceKind, f: Seq<char>, n: Seq<char>| #[trigger]
                    index.id_at(h, f, n) == symbol_id(symbols.take(i as int), h, f, n),
                forall|f: Seq<char>, n: Seq<char>| #[trigger] index.import_at(f, n) is None,
        {
            let symbol = &semantic.symbols[i];
            assert(symbols.take(i + 1).drop_last() =~= symbols.take(i as int));
            assert(symbols[i as int] == symbol@);
            if symbol.kind == SymbolKind::Function {
                index.add_symbol(ReferenceKind::Call, &symbol.file, &symbol.name, &symbol.id);
            } else if symbol.kind == SymbolKind::Class {
                index.add_symbol(ReferenceKind::Extends, &symbol.file, &symbol.name, &symbol.id);
            }
        }
        assert(symbols.take(semantic.symbols@.len() as int) =~= symbols);
        for i in 0..resolve.edges.len()
            invariant
                edges == resolve::edges_view(resolve.edges@),
                forall|h: ReferenceKind, f: Seq<char>, n: Seq<char>| #[trigger]
                    index.id_at(h, f, n) == symbol_id(symbols, h, f, n),
                forall|f: Seq<char>, n: Seq<char>| #[trigger]
                    index.import_at(f, n) == binding(edges.take(i as int), f, n),
        {
            let edge = &resolve.edges[i];
            assert(edges.take(i + 1).drop_last() =~= edges.take(i as int));
            assert(edges[i as int] == edge@);
            index.add_bindings(&edge.from_file, &edge.local_bindings, &edge.target);
        }
        assert(edges.take(resolve.edges@.len() as int) =~= edges);
        index
    }

    fn find_id(&self, how: ReferenceKind, file: &str, name: &str) -> (id: Option<&'a str>)
        ensures
            text::opt_str_view(id) == self.id_at(how, file@, name@),
    {
        let ids = match how {
            ReferenceKind::Call => &self.functions,
            ReferenceKind::Extends => &self.classes,
        };
        match ids.get(file) {
            Some(names) => match names.get(name) {
                Some(id) => Some(*id),
                None => None,
            },
            None => None,
        }
    }

    /// What `name` refers to in `file`, by the index.
    pub open spec fn lookup(
        &self,
        how: ReferenceKind,
        file: Seq<char>,
        name: Seq<char>,
    ) -> ReferenceTargetView {
        match self.id_at(how, file, name) {
            Some(id) => ReferenceTargetView::SameFile(id),
            None => match self.import_at(file, name) {
                None => ReferenceTargetView::Unmatched,
                Some((original, target)) => imported(
                    target,
                    match (target, original) {
                        (ImportTargetView::LocalFile(path), Some(original)) => self.id_at(
                            how,
                            path,
                            original,
                        ),
                        _ => None,
                    },
                ),
            },
        }
    }

    /// What `name`, which is referred to in this way in `file`, stands for.
    pub fn resolve_name(&self, how: ReferenceKind, file: &str, name: &str) -> (target:
        ReferenceTarget)
        ensures
            target@ == self.lookup(how, file@, name@),
    {
        if let Some(id) = self.find_id(how, file, name) {
            return ReferenceTarget::SameFile(id.to_string());
        }
        if let Some(names) = self.bindings.get(file) {
            if let Some(held) = names.get(name) {
                let original: Option<&str> = held.0;
                return match held.1 {
                    ImportTarget::LocalFile(path) => {
                        let id: Option<&str> = match original {
                            Some(original) => self.find_id(how, path, original),
                            None => None,
                        };
                        match id {
                            Some(id) => ReferenceTarget::CrossFile(id.to_string()),
                            None => ReferenceTarget::UnresolvedImport(path.clone()),
                        }
                    },
                    ImportTarget::External(package) => ReferenceTarget::UnresolvedImport(
                        package.clone(),
                    ),
                    ImportTarget::UnresolvedLocal(reason) => ReferenceTarget::UnresolvedImport(
                        reason.clone(),
                    ),
                };
            }
        }
        ReferenceTarget::Unmatched
    }
}

// ---- files ----

/// What is said of one file: its calls and its superclasses.
#[verifier::ext_equal]
pub struct FileReferences {
    pub calls: Seq<CallReferenceView>,
    pub extends: Seq<ExtendsReferenceView>,
}

/// The references of a file with the program `body`.
pub open spec fn program_references(
    symbols: Seq<SymbolView>,
    edges: Seq<ImportEdgeView>,
    file: Seq<char>,
    body: Seq<Node>,
) -> FileReferences {
    FileReferences {
        calls: walk::in_program(file, body).calls.map_values(
            |m: MentionView|
                CallReferenceView {
                    from_symbol_id: m.from_symbol_id,
                    callee_name: m.name,
                    target: referent(symbols, edges, ReferenceKind::Call, file, m.name),
                },
        ),
        extends: walk::in_program(file, body).extends.map_values(
            |m: MentionView|
                ExtendsReferenceView {
                    from_symbol_id: m.from_symbol_id,
                    superclass_name: m.name,
                    target: referent(symbols, edges, ReferenceKind::Extends, file, m.name),
                },
        ),
    }
}

/// The references of the file at `path`.
pub open spec fn file_references(
    symbols: Seq<SymbolView>,
    edges: Seq<ImportEdgeView>,
    vfs: VfsView,
    path: Seq<char>,
) -> Result<FileReferences, FileErrorView> {
    match vfs.text_of(path) {
        None => Err(FileErrorView::InvalidUtf8 { path }),
        Some(source) => Ok(
            program_references(
                symbols,
                edges,
                path,
                recorder::parsed_program(source, source_type::source_kind(path)),
            ),
        ),
    }
}

/// The calls and superclasses of a file by their characters.
pub open spec fn references_view(
    found: (Vec<CallReference>, Vec<ExtendsReference>),
) -> FileReferences {
    FileReferences { calls: calls_view(found.0@), extends: extends_view(found.1@) }
}

/// A result by its characters.
pub open spec fn references_result(
    result: Result<(Vec<CallReference>, Vec<ExtendsReference>), FileError>,
) -> Result<FileReferences, FileErrorView> {
    match result {
        Ok(found) => Ok(references_view(found)),
        Err(error) => Err(error@),
    }
}

/// The references by the index of a file with the program `body`.
pub open spec fn indexed_references(
    index: ReferenceIndex<'_>,
    file: Seq<char>,
    body: Seq<Node>,
) -> FileReferences {
    FileReferences {
        calls: walk::in_program(file, body).calls.map_values(
            |m: MentionView|
                CallReferenceView {
                    from_symbol_id: m.from_symbol_id,
                    callee_name: m.name,
                    target: index.lookup(ReferenceKind::Call, file, m.name),
                },
        ),
        extends: walk::in_program(file, body).extends.map_values(
            |m: MentionView|
                ExtendsReferenceView {
                    from_symbol_id: m.from_symbol_id,
                    superclass_name: m.name,
                    target: index.lookup(ReferenceKind::Extends, file, m.name),
                },
        ),
    }
}

/// What an index says is what the symbols and imports that it holds say.
pub proof fn lemma_indexed_references(
    index: ReferenceIndex<'_>,
    symbols: Seq<SymbolView>,
    edges: Seq<ImportEdgeView>,
    file: Seq<char>,
    body: Seq<Node>,
)
    requires
        index.indexes(symbols, edges),
    ensures
        indexed_references(index, file, body) == program_references(symbols, edges, file, body),
{
    assert forall|how: ReferenceKind, name: Seq<char>| #[trigger]
        index.lookup(how, file, name) == referent(symbols, edges, how, file, name) by {
        assert(index.id_at(how, file, name) == symbol_id(symbols, how, file, name));
        assert(index.import_at(file, name) == binding(edges, file, name));
        if let Some((original, target)) = binding(edges, file, name) {
            if let (ImportTargetView::LocalFile(path), Some(original)) = (target, original) {
                assert(index.id_at(how, path, original) == symbol_id(symbols, how, path, original));
            }
        }
    }
    assert(indexed_references(index, file, body).calls =~= program_references(
        symbols,
        edges,
        file,
        body,
    ).calls);
    assert(indexed_references(index, file, body).extends =~= program_references(
        symbols,
        edges,
        file,
        body,
    ).extends);
}

/// The references of the program of the file `file`.
pub fn collect_references_in_program(index: &ReferenceIndex, file: &str, program: &Program) -> (found:
    (Vec<CallReference>, Vec<ExtendsReference>))
    ensures
        references_view(found) == indexed_references(*index, file@, program@),
{
    let mentions = walk::collect_mentions(file, program);
    let ghost expected = indexed_references(*index, file@, program@);
    let ghost named = mentions.found();
    let mut calls: Vec<CallReference> = Vec::new();
    assert(calls_view(calls@) =~= expected.calls.take(0));
    for i in 0..mentions.calls.len()
        invariant
            expected == indexed_references(*index, file@, program@),
            walk::mentions_view(mentions.calls@) == walk::in_program(file@, program@).calls,
            calls_view(calls@) == expected.calls.take(i as int),
    {
        let mention = &mentions.calls[i];
        assert(walk::mentions_view(mentions.calls@)[i as int] == mention@);
        let ghost before = calls_view(calls@);
        let made = CallReference {
            from_symbol_id: mention.from_symbol_id.clone(),
            callee_name: mention.name.clone(),
            target: index.resolve_name(ReferenceKind::Call, file, &mention.name),
        };
        let ghost shown = made@;
        calls.push(made);
        assert(calls_view(calls@) =~= before.push(shown));
        assert(expected.calls.take(i + 1) =~= expected.calls.take(i as int).push(shown));
    }
    let mut extends: Vec<ExtendsReference> = Vec::new();
    assert(extends_view(extends@) =~= expected.extends.take(0));
    for i in 0..mentions.extends.len()
        invariant
            expected == indexed_references(*index, file@, program@),
            walk::mentions_view(mentions.extends@) == walk::in_program(file@, program@).extends,
            extends_view(extends@) == expected.extends.take(i as int),
    {
        let mention = &mentions.extends[i];
        assert(walk::mentions_view(mentions.extends@)[i as int] == mention@);
        let ghost before = extends_view(extends@);
        let made = ExtendsReference {
            from_symbol_id: mention.from_symbol_id.clone(),
            superclass_name: mention.name.clone(),
            target: index.resolve_name(ReferenceKind::Extends, file, &mention.name),
        };
        let ghost shown = made@;
        extends.push(made);
        assert(extends_view(extends@) =~= before.push(shown));
        assert(expected.extends.take(i + 1) =~= expected.extends.take(i as int).push(shown));
    }
    assert(expected.calls.take(expected.calls.len() as int) =~= expected.calls);
    assert(expected.extends.take(expected.extends.len() as int) =~= expected.extends);
    (calls, extends)
}

/// The references of the file at `path`.
pub fn collect_references_for_file(index: &ReferenceIndex, vfs: &Vfs, path: &str) -> (result:
    Result<(Vec<CallReference>, Vec<ExtendsReference>), FileError>)
    ensures
        references_result(result) == match vfs@.text_of(path@) {
            None => Err(FileErrorView::InvalidUtf8 { path: path@ }),
            Some(source) => Ok(
                indexed_references(
                    *index,
                    path@,
                    recorder::parsed_program(source, source_type::source_kind(path@)),
                ),
            ),
        },
{
    match vfs.read_utf8(path) {
        None => Err(FileError::InvalidUtf8 { path: path.to_string() }),
        Some(source) => {
            let kind = source_type::resolve_source_type(path);
            let program = recorder::parse_program(source, kind);
            Ok(collect_references_in_program(index, path, &program))
        },
    }
}

/// What is said of many files.
#[derive(Debug)]
pub struct ReferenceBatch {
    pub calls: Vec<CallReference>,
    pub extends: Vec<ExtendsReference>,
    pub failures: Vec<FileError>,
}

/// The calls of all files, file by file.
pub open spec fn all_calls(results: Seq<Result<FileReferences, FileErrorView>>) -> Seq<
    CallReferenceView,
>
    decreases results.len(),
{
    if results.len() == 0 {
        Seq::empty()
    } else {
        match results.last() {
            Ok(found) => all_calls(results.drop_last()) + found.calls,
            Err(_) => all_calls(results.drop_last()),
        }
    }
}

/// The superclasses of all files, file by file.
pub open spec fn all_extends(results: Seq<Result<FileReferences, FileErrorView>>) -> Seq<
    ExtendsReferenceView,
>
    decreases results.len(),
{
    if results.len() == 0 {
        Seq::empty()
    } else {
        match results.last() {
            Ok(found) => all_extends(results.drop_last()) + found.extends,
            Err(_) => all_extends(results.drop_last()),
        }
    }
}

impl ReferenceBatch {
    /// Whether the batch holds `results`.
    pub open spec fn holds(&self, results: Seq<Result<FileReferences, FileErrorView>>) -> bool {
        &&& calls_view(self.calls@) == all_calls(results)
        &&& extends_view(self.extends@) == all_extends(results)
        &&& batch::errors_view(self.failures@) == batch::failures(results)
    }

    /// An empty batch.
    pub fn new() -> (b: Self)
        ensures
            b.holds(Seq::empty()),
    {
        let b = ReferenceBatch { calls: Vec::new(), extends: Vec::new(), failures: Vec::new() };
        assert(calls_view(b.calls@) =~= Seq::empty());
        assert(extends_view(b.extends@) =~= Seq::empty());
        assert(batch::errors_view(b.failures@) =~= Seq::empty());
        b
    }

    /// Adds the result of one more file.
    pub fn record(&mut self, result: Result<(Vec<CallReference>, Vec<ExtendsReference>), FileError>)
        ensures
            forall|results: Seq<Result<FileReferences, FileErrorView>>| #[trigger]
                old(self).holds(results) ==> final(self).holds(
                    results.push(references_result(result)),
                ),
    {
        let ghost added = references_result(result);
        match result {
            Ok((calls, extends)) => {
                let mut calls = calls;
                let mut extends = extends;
                self.calls.append(&mut calls);
                self.extends.append(&mut extends);
            },
            Err(error) => self.failures.push(error),
        }
        proof {
            assert forall|results: Seq<Result<FileReferences, FileErrorView>>| #[trigger]
                old(self).holds(results) implies self.holds(results.push(added)) by {
                let more = results.push(added);
                assert(more.drop_last() =~= results);
                assert(calls_view(self.calls@) =~= all_calls(more));
                assert(extends_view(self.extends@) =~= all_extends(more));
                assert(batch::errors_view(self.failures@) =~= batch::failures(more));
            }
        }
    }
}

impl Default for ReferenceBatch {
    fn default() -> (b: Self)
        ensures
            b.holds(Seq::empty()),
    {
        ReferenceBatch::new()
    }
}

/// The references of the files at `paths`, among the symbols and imports that
/// the earlier stages found.
pub fn collect_all(
    vfs: &Vfs,
    semantic: &SemanticBatch,
    resolve: &ResolveBatch,
    paths: &[&str],
) -> (b: ReferenceBatch)
    ensures
        b.holds(
            text::str_views(paths@).map_values(
                |p: Seq<char>|
                    file_references(
                        symbol_classify::symbols_view(semantic.symbols@),
                        resolve::edges_view(resolve.edges@),
                        vfs@,
                        p,
                    ),
            ),
        ),
{
    let ghost symbols = symbol_classify::symbols_view(semantic.symbols@);
    let ghost edges = resolve::edges_view(resolve.edges@);
    let index = ReferenceIndex::build(semantic, resolve);
    let ghost results = text::str_views(paths@).map_values(
        |p: Seq<char>| file_references(symbols, edges, vfs@, p),
    );
    let mut b = ReferenceBatch::new();
    for i in 0..paths.len()
        invariant
            index.indexes(symbols, edges),
            results == text::str_views(paths@).map_values(
                |p: Seq<char>| file_references(symbols, edges, vfs@, p),
            ),
            b.holds(results.take(i as int)),
    {
        let result = collect_references_for_file(&index, vfs, paths[i]);
        proof {
            let path = paths@[i as int]@;
            if let Some(source) = vfs@.text_of(path) {
                lemma_indexed_references(
                    index,
                    symbols,
                    edges,
                    path,
                    recorder::parsed_program(source, source_type::source_kind(path)),
                );
            }
            assert(results.take(i + 1) =~= results.take(i as int).push(references_result(result)));
        }
        b.record(result);
    }
    assert(results.take(paths@.len() as int) =~= results);
    b
}

// ---- laws ----

/// What a file itself declares hides an import of the same name.
pub proof fn law_local_symbols_hide_imports(
    symbols: Seq<SymbolView>,
    edges: Seq<ImportEdgeView>,
    other_edges: Seq<ImportEdgeView>,
    how: ReferenceKind,
    file: Seq<char>,
    name: Seq<char>,
)
    requires
        exists|i: int| 0 <= i < symbols.len() && is_target(#[trigger] symbols[i], how, file, name),
    ensures
        referent(symbols, edges, how, file, name) is SameFile,
        referent(symbols, edges, how, file, name) == referent(symbols, other_edges, how, file, name),
{
    let i = choose|i: int| 0 <= i < symbols.len() && is_target(#[trigger] symbols[i], how, file, name);
    lemma_symbol_found(symbols, how, file, name, i);
}

proof fn lemma_symbol_found(
    symbols: Seq<SymbolView>,
    how: ReferenceKind,
    file: Seq<char>,
    name: Seq<char>,
    i: int,
)
    requires
        0 <= i < symbols.len(),
        is_target(symbols[i], how, file, name),
    ensures
        symbol_id(symbols, how, file, name) is Some,
    decreases symbols.len(),
{
    if !is_target(symbols.last(), how, file, name) {
        lemma_symbol_found(symbols.drop_last(), how, file, name, i);
    }
}

/// The id that a name leads to is always that of a function where it is
/// called, and of a class where it is extended: within the file one of its
/// own, across files one of the file that the import comes to, under the name
/// that it is exported by.
pub proof fn law_referents_are_functions_or_classes(
    symbols: Seq<SymbolView>,
    edges: Seq<ImportEdgeView>,
    how: ReferenceKind,
    file: Seq<char>,
    name: Seq<char>,
)
    ensures
        match referent(symbols, edges, how, file, name) {
            ReferenceTargetView::SameFile(id) => exists|i: int|
                0 <= i < symbols.len() && is_target(#[trigger] symbols[i], how, file, name)
                    && symbols[i].id == id,
            ReferenceTargetView::CrossFile(id) => exists|path: Seq<char>, original: Seq<char>, i:
                int|
                binding(edges, file, name) == Some(
                    (Some(original), ImportTargetView::LocalFile(path)),
                ) && 0 <= i < symbols.len() && #[trigger] is_target(symbols[i], how, path, original)
                    && symbols[i].id == id,
            ReferenceTargetView::UnresolvedImport(_) => binding(edges, file, name) is Some,
            ReferenceTargetView::Unmatched => binding(edges, file, name) is None,
        },
{
    match referent(symbols, edges, how, file, name) {
        ReferenceTargetView::SameFile(id) => {
            lemma_id_is_of_a_symbol(symbols, how, file, name);
        },
        ReferenceTargetView::CrossFile(id) => {
            let (original, target) = binding(edges, file, name)->0;
            let path = target->LocalFile_0;
            lemma_id_is_of_a_symbol(symbols, how, path, original->0);
            let i = choose|i: int|
                0 <= i < symbols.len() && is_target(#[trigger] symbols[i], how, path, original->0)
                    && symbols[i].id == id;
            assert(is_target(symbols[i], how, path, original->0));
        },
        _ => {},
    }
}

proof fn lemma_id_is_of_a_symbol(
    symbols: Seq<SymbolView>,
    how: ReferenceKind,
    file: Seq<char>,
    name: Seq<char>,
)
    requires
        symbol_id(symbols, how, file, name) is Some,
    ensures
        exists|i: int|
            0 <= i < symbols.len() && is_target(#[trigger] symbols[i], how, file, name) && Some(
                symbols[i].id,
            ) == symbol_id(symbols, how, file, name),
    decreases symbols.len(),
{
    if is_target(symbols.last(), how, file, name) {
        assert(is_target(symbols[symbols.len() - 1], how, file, name));
    } else {
        lemma_id_is_of_a_symbol(symbols.drop_last(), how, file, name);
        let i = choose|i: int|
            0 <= i < symbols.drop_last().len() && is_target(
                #[trigger] symbols.drop_last()[i],
                how,
                file,
                name,
            ) && Some(symbols.drop_last()[i].id) == symbol_id(symbols.drop_last(), how, file, name);
        assert(symbols[i] == symbols.drop_last()[i]);
    }
}

/// Whether symbol `i` is the last function of `file` that is called `name`, or
/// the last class for a superclass.
pub open spec fn is_last_symbol(
    symbols: Seq<SymbolView>,
    how: ReferenceKind,
    file: Seq<char>,
    name: Seq<char>,
    i: int,
) -> bool {
    let wanted = match how {
        ReferenceKind::Call => SymbolKind::Function,
        ReferenceKind::Extends => SymbolKind::Class,
    };
    &&& 0 <= i < symbols.len()
    &&& symbols[i].kind == wanted && symbols[i].file == file && symbols[i].name == name
    &&& forall|j: int|
        i < j < symbols.len() ==> !((#[trigger] symbols[j]).kind == wanted && symbols[j].file
            == file && symbols[j].name == name)
}

/// Whether `file` has no function called `name`, or no class for a superclass.
pub open spec fn has_no_symbol(
    symbols: Seq<SymbolView>,
    how: ReferenceKind,
    file: Seq<char>,
    name: Seq<char>,
) -> bool {
    let wanted = match how {
        ReferenceKind::Call => SymbolKind::Function,
        ReferenceKind::Extends => SymbolKind::Class,
    };
    forall|j: int|
        0 <= j < symbols.len() ==> !((#[trigger] symbols[j]).kind == wanted && symbols[j].file
            == file && symbols[j].name == name)
}

proof fn lemma_last_symbol(
    symbols: Seq<SymbolView>,
    how: ReferenceKind,
    file: Seq<char>,
    name: Seq<char>,
    i: int,
)
    requires
        is_last_symbol(symbols, how, file, name, i),
    ensures
        symbol_id(symbols, how, file, name) == Some(symbols[i].id),
    decreases symbols.len(),
{
    assert(symbols.last() == symbols[symbols.len() - 1]);
    if i < symbols.len() - 1 {
        let init = symbols.drop_last();
        assert forall|j: int| i < j < init.len() implies #[trigger] init[j] == symbols[j] by {}
        lemma_last_symbol(init, how, file, name, i);
    }
}

proof fn lemma_no_symbol(
    symbols: Seq<SymbolView>,
    how: ReferenceKind,
    file: Seq<char>,
    name: Seq<char>,
)
    requires
        has_no_symbol(symbols, how, file, name),
    ensures
        symbol_id(symbols, how, file, name) is None,
    decreases symbols.len(),
{
    if symbols.len() > 0 {
        let init = symbols.drop_last();
        assert(symbols.last() == symbols[symbols.len() - 1]);
        assert forall|j: int| 0 <= j < init.len() implies #[trigger] init[j] == symbols[j] by {}
        lemma_no_symbol(init, how, file, name);
    }
}

/// Whether binding `b` of a row is the last that binds `name`.
pub open spec fn is_last_binding(bindings: Seq<LocalBindingView>, name: Seq<char>, b: int) -> bool {
    &&& 0 <= b < bindings.len()
    &&& bindings[b].local_name == name
    &&& forall|j: int| b < j < bindings.len() ==> (#[trigger] bindings[j]).local_name != name
}

/// Whether none of these bindings is of `name`.
pub open spec fn binds_not(bindings: Seq<LocalBindingView>, name: Seq<char>) -> bool {
    forall|j: int| 0 <= j < bindings.len() ==> (#[trigger] bindings[j]).local_name != name
}

/// Whether binding `b` of import `e` is the last that binds `name` in `file`.
pub open spec fn is_last_import(
    edges: Seq<ImportEdgeView>,
    file: Seq<char>,
    name: Seq<char>,
    e: int,
    b: int,
) -> bool {
    &&& 0 <= e < edges.len()
    &&& edges[e].from_file == file
    &&& is_last_binding(edges[e].local_bindings, name, b)
    &&& forall|j: int|
        e < j < edges.len() ==> (#[trigger] edges[j]).from_file != file || binds_not(
            edges[j].local_bindings,
            name,
        )
}

/// Whether no import of `file` binds `name`.
pub open spec fn is_not_imported(
    edges: Seq<ImportEdgeView>,
    file: Seq<char>,
    name: Seq<char>,
) -> bool {
    forall|j: int|
        0 <= j < edges.len() ==> (#[trigger] edges[j]).from_file != file || binds_not(
            edges[j].local_bindings,
            name,
        )
}

proof fn lemma_last_binding(bindings: Seq<LocalBindingView>, name: Seq<char>, b: int)
    requires
        is_last_binding(bindings, name, b),
    ensures
        bound_as(bindings, name) == Some(bindings[b].imported_name),
    decreases bindings.len(),
{
    assert(bindings.last() == bindings[bindings.len() - 1]);
    if b < bindings.len() - 1 {
        let init = bindings.drop_last();
        assert forall|j: int| b < j < init.len() implies #[trigger] init[j] == bindings[j] by {}
        lemma_last_binding(init, name, b);
    }
}

proof fn lemma_binds_not(bindings: Seq<LocalBindingView>, name: Seq<char>)
    requires
        binds_not(bindings, name),
    ensures
        bound_as(bindings, name) is None,
    decreases bindings.len(),
{
    if bindings.len() > 0 {
        let init = bindings.drop_last();
        assert(bindings.last() == bindings[bindings.len() - 1]);
        assert forall|j: int| 0 <= j < init.len() implies #[trigger] init[j] == bindings[j] by {}
        lemma_binds_not(init, name);
    }
}

proof fn lemma_last_import(
    edges: Seq<ImportEdgeView>,
    file: Seq<char>,
    name: Seq<char>,
    e: int,
    b: int,
)
    requires
        is_last_import(edges, file, name, e, b),
    ensures
        binding(edges, file, name) == Some(
            (edges[e].local_bindings[b].imported_name, edges[e].target),
        ),
    decreases edges.len(),
{
    let last = edges[edges.len() - 1];
    assert(edges.last() == last);
    if e < edges.len() - 1 {
        let init = edges.drop_last();
        assert forall|j: int| e < j < init.len() implies #[trigger] init[j] == edges[j] by {}
        if last.from_file == file {
            lemma_binds_not(last.local_bindings, name);
        }
        lemma_last_import(init, file, name, e, b);
    } else {
        lemma_last_binding(last.local_bindings, name, b);
    }
}

proof fn lemma_not_imported(edges: Seq<ImportEdgeView>, file: Seq<char>, name: Seq<char>)
    requires
        is_not_imported(edges, file, name),
    ensures
        binding(edges, file, name) is None,
    decreases edges.len(),
{
    if edges.len() > 0 {
        let init = edges.drop_last();
        let last = edges[edges.len() - 1];
        assert(edges.last() == last);
        assert forall|j: int| 0 <= j < init.len() implies #[trigger] init[j] == edges[j] by {}
        if last.from_file == file {
            lemma_binds_not(last.local_bindings, name);
        }
        lemma_not_imported(init, file, name);
    }
}

/// A name that is called refers to the function of that name in the same file,
/// if there is one, and one that is extended to the class: of several to the
/// last. Imports make no difference then.
pub proof fn law_names_refer_to_the_same_file_first(
    symbols: Seq<SymbolView>,
    edges: Seq<ImportEdgeView>,
    how: ReferenceKind,
    file: Seq<char>,
    name: Seq<char>,
    i: int,
)
    requires
        is_last_symbol(symbols, how, file, name, i),
    ensures
        referent(symbols, edges, how, file, name) == ReferenceTargetView::SameFile(symbols[i].id),
{
    lemma_last_symbol(symbols, how, file, name, i);
}

/// A name that the file does not declare refers across an import to what the
/// other file declares under the name that is imported, whatever it is called
/// here.
pub proof fn law_names_refer_across_imports(
    symbols: Seq<SymbolView>,
    edges: Seq<ImportEdgeView>,
    how: ReferenceKind,
    file: Seq<char>,
    name: Seq<char>,
    e: int,
    b: int,
    other: Seq<char>,
    original: Seq<char>,
    i: int,
)
    requires
        has_no_symbol(symbols, how, file, name),
        is_last_import(edges, file, name, e, b),
        edges[e].target == ImportTargetView::LocalFile(other),
        edges[e].local_bindings[b].imported_name == Some(original),
        is_last_symbol(symbols, how, other, original, i),
    ensures
        referent(symbols, edges, how, file, name) == ReferenceTargetView::CrossFile(symbols[i].id),
{
    lemma_no_symbol(symbols, how, file, name);
    lemma_last_import(edges, file, name, e, b);
    lemma_last_symbol(symbols, how, other, original, i);
}

/// A name that is imported, but leads to no symbol, is told with where it was
/// imported from: the package, the file, or the reason why there is none.
pub proof fn law_imports_that_lead_nowhere_are_told(
    symbols: Seq<SymbolView>,
    edges: Seq<ImportEdgeView>,
    how: ReferenceKind,
    file: Seq<char>,
    name: Seq<char>,
    e: int,
    b: int,
)
    requires
        has_no_symbol(symbols, how, file, name),
        is_last_import(edges, file, name, e, b),
        edges[e].target matches ImportTargetView::LocalFile(other) ==> {
            ||| edges[e].local_bindings[b].imported_name is None
            ||| has_no_symbol(
                symbols,
                how,
                other,
                edges[e].local_bindings[b].imported_name->0,
            )
        },
    ensures
        referent(symbols, edges, how, file, name) == ReferenceTargetView::UnresolvedImport(
            match edges[e].target {
                ImportTargetView::LocalFile(other) => other,
                ImportTargetView::External(package) => package,
                ImportTargetView::UnresolvedLocal(reason) => reason,
            },
        ),
{
    lemma_no_symbol(symbols, how, file, name);
    lemma_last_import(edges, file, name, e, b);
    if let ImportTargetView::LocalFile(other) = edges[e].target {
        if let Some(original) = edges[e].local_bindings[b].imported_name {
            lemma_no_symbol(symbols, how, other, original);
        }
    }
}

/// A name that the file neither declares nor imports is matched with nothing.
pub proof fn law_other_names_are_unmatched(
    symbols: Seq<SymbolView>,
    edges: Seq<ImportEdgeView>,
    how: ReferenceKind,
    file: Seq<char>,
    name: Seq<char>,
)
    requires
        has_no_symbol(symbols, how, file, name),
        is_not_imported(edges, file, name),
    ensures
        referent(symbols, edges, how, file, name) == ReferenceTargetView::Unmatched,
{
    lemma_no_symbol(symbols, how, file, name);
    lemma_not_imported(edges, file, name);
}

/// Every call and every superclass that is found in a file makes one reference,
/// in order, with the symbol that it stands in, its name, and what the name
/// refers to.
pub proof fn law_mentions_become_references(
    symbols: Seq<SymbolView>,
    edges: Seq<ImportEdgeView>,
    file: Seq<char>,
    body: Seq<Node>,
    i: int,
)
    ensures
        ({
            let made = program_references(symbols, edges, file, body);
            let found = walk::in_nodes(file, None, body);
            &&& made.calls.len() == found.calls.len()
            &&& made.extends.len() == found.extends.len()
            &&& 0 <= i < found.calls.len() ==> made.calls[i] == (CallReferenceView {
                from_symbol_id: found.calls[i].from_symbol_id,
                callee_name: found.calls[i].name,
                target: referent(symbols, edges, ReferenceKind::Call, file, found.calls[i].name),
            })
            &&& 0 <= i < found.extends.len() ==> made.extends[i] == (ExtendsReferenceView {
                from_symbol_id: found.extends[i].from_symbol_id,
                superclass_name: found.extends[i].name,
                target: referent(
                    symbols,
                    edges,
                    ReferenceKind::Extends,
                    file,
                    found.extends[i].name,
                ),
            })
        }),
{
}

proof fn lemma_calls_of_a_node(file: Seq<char>, body: Seq<Node>, at: int, k: int)
    requires
        0 <= at < body.len(),
        0 <= k < walk::in_node(file, None, body[at]).calls.len(),
    ensures
        walk::in_nodes(file, None, body).calls.contains(
            walk::in_node(file, None, body[at]).calls[k],
        ),
    decreases body.len(),
{
    let sought = walk::in_node(file, None, body[at]).calls[k];
    let all = walk::in_nodes(file, None, body).calls;
    let init = body.drop_last();
    let before = walk::in_nodes(file, None, init).calls;
    if at < init.len() {
        assert(init[at] == body[at]);
        lemma_calls_of_a_node(file, init, at, k);
        let found = before.index_of(sought);
        assert(before[found] == sought);
        assert(all[found] == sought);
    } else {
        assert(all[before.len() + k] == sought);
    }
}

/// No call is lost on the way: every plain name that is called anywhere below a
/// named function of a file is the callee of a reference of that file.
pub proof fn law_every_call_of_a_function_is_a_reference(
    symbols: Seq<SymbolView>,
    edges: Seq<ImportEdgeView>,
    file: Seq<char>,
    body: Seq<Node>,
    at: int,
    k: int,
)
    requires
        0 <= at < body.len(),
        body[at].kind matches NodeKind::Function { name: Some(_) },
        walk::all_speak_in_bodies(file, body[at].children),
        0 <= k < walk::called_among(body[at].children).len(),
    ensures
        exists|i: int|
            0 <= i < program_references(symbols, edges, file, body).calls.len()
                && (#[trigger] program_references(symbols, edges, file, body).calls[i]).callee_name
                == walk::called_among(body[at].children)[k],
{
    let made = program_references(symbols, edges, file, body).calls;
    let found = walk::in_nodes(file, None, body).calls;
    let own = walk::in_node(file, None, body[at]).calls;
    walk::law_every_call_below_a_function_is_found(file, None, body[at]);
    assert(walk::mentioned(own)[k] == own[k].name);
    lemma_calls_of_a_node(file, body, at, k);
    let i = found.index_of(own[k]);
    assert(found[i] == own[k]);
    law_mentions_become_references(symbols, edges, file, body, i);
    assert(made[i].callee_name == walk::called_among(body[at].children)[k]);
}

/// A file that is no text has no references and is told as a failure; any other
/// has those of its program.
pub proof fn law_unreadable_files_fail(
    symbols: Seq<SymbolView>,
    edges: Seq<ImportEdgeView>,
    vfs: VfsView,
    path: Seq<char>,
)
    ensures
        file_references(symbols, edges, vfs, path) is Ok <==> vfs.text_of(path) is Some,
        vfs.text_of(path) is None ==> file_references(symbols, edges, vfs, path) == Err::<
            FileReferences,
            _,
        >(FileErrorView::InvalidUtf8 { path }),
{
}

/// The references of a batch are those of its files, one after another.
pub proof fn law_references_stand_file_by_file(
    results: Seq<Result<FileReferences, FileErrorView>>,
    found: FileReferences,
    error: FileErrorView,
)
    ensures
        all_calls(Seq::empty()).len() == 0,
        all_extends(Seq::empty()).len() == 0,
        all_calls(results.push(Ok(found))) == all_calls(results) + found.calls,
        all_extends(results.push(Ok(found))) == all_extends(results) + found.extends,
        all_calls(results.push(Err(error))) == all_calls(results),
        all_extends(results.push(Err(error))) == all_extends(results),
{
    assert(results.push(Ok(found)).drop_last() =~= results);
    assert(results.push(Err(error)).drop_last() =~= results);
}

/// A batch has the references of its files, one after another, and their
/// failures.
pub proof fn law_batches_of_references(
    b: ReferenceBatch,
    results: Seq<Result<FileReferences, FileErrorView>>,
)
    requires
        b.holds(results),
    ensures
        calls_view(b.calls@) == all_calls(results),
        extends_view(b.extends@) == all_extends(results),
        batch::errors_view(b.failures@) == batch::failures(results),
{
}

} // verus!
