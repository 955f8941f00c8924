//! The third stage: which files and packages a file imports.
//!
//! Imports and re-exports are collected from the statements of a module, and
//! each specifier is resolved against the files of the project. What it comes
//! to is never left open: a file of the project, a package from outside, or,
//! for a specifier that is plainly local, the reason why no file was found.
pub mod external_classify;
pub mod vfs_filesystem;

use crate::engine::batch;
use crate::engine::parse::recorder;
use crate::engine::parse::source_type;
use crate::engine::parse::syntax;
use crate::engine::parse::syntax::AstNode;
use crate::engine::parse::syntax::Node;
use crate::engine::parse::syntax::NodeKind;
use crate::engine::parse::syntax::Program;
use crate::error::FileError;
use crate::error::FileErrorView;
use crate::scan::file_classify;
use crate::string_map::StringMap;
use crate::text;
use crate::vfs::Vfs;
use crate::vfs::VfsView;
use oxc_resolver::AliasValue;
use oxc_resolver::ResolveOptions;
use oxc_resolver::ResolverGeneric;
use std::path::Path;
use vfs_filesystem::parts_of;
use vfs_filesystem::path_of;
use vfs_filesystem::PathPart;
use vfs_filesystem::VfsFileSystem;
use vstd::prelude::*;
use vstd::string::*;

verus! {

/// What an import comes to.
#[derive(Debug, Clone)]
pub enum ImportTarget {
    /// A file of the project.
    LocalFile(String),
    /// A package from outside.
    External(String),
    /// A local import that leads to no file, and why.
    UnresolvedLocal(String),
}

/// An `ImportTarget` by its characters.
pub enum ImportTargetView {
    LocalFile(Seq<char>),
    External(Seq<char>),
    UnresolvedLocal(Seq<char>),
}

impl View for ImportTarget {
    type V = ImportTargetView;

    open spec fn view(&self) -> ImportTargetView {
        match *self {
            ImportTarget::LocalFile(path) => ImportTargetView::LocalFile(path@),
            ImportTarget::External(name) => ImportTargetView::External(name@),
            ImportTarget::UnresolvedLocal(reason) => ImportTargetView::UnresolvedLocal(reason@),
        }
    }
}

/// A name that an import binds.
#[derive(Debug, Clone)]
pub struct LocalBinding {
    pub local_name: String,
    /// The name under which the other module exports it; none for default
    /// and namespace imports.
    pub imported_name: Option<String>,
}

/// A `LocalBinding` by its characters.
pub struct LocalBindingView {
    pub local_name: Seq<char>,
    pub imported_name: Option<Seq<char>>,
}

impl View for LocalBinding {
    type V = LocalBindingView;

    open spec fn view(&self) -> LocalBindingView {
        LocalBindingView {
            local_name: self.local_name@,
            imported_name: text::opt_view(self.imported_name),
        }
    }
}

/// Bindings by their characters.
pub open spec fn bindings_view(bindings: Seq<LocalBinding>) -> Seq<LocalBindingView> {
    bindings.map_values(|b: LocalBinding| b@)
}

/// An import of a file, with what it comes to.
#[derive(Debug, Clone)]
pub struct ImportEdge {
    pub from_file: String,
    pub specifier: String,
    /// Whether the import hands on what it imports.
    pub is_re_export: bool,
    /// Whether the whole statement imports types only.
    pub is_type_only: bool,
    pub local_bindings: Vec<LocalBinding>,
    pub target: ImportTarget,
}

/// An `ImportEdge` by its characters.
pub struct ImportEdgeView {
    pub from_file: Seq<char>,
    pub specifier: Seq<char>,
    pub is_re_export: bool,
    pub is_type_only: bool,
    pub local_bindings: Seq<LocalBindingView>,
    pub target: ImportTargetView,
}

impl View for ImportEdge {
    type V = ImportEdgeView;

    open spec fn view(&self) -> ImportEdgeView {
        ImportEdgeView {
            from_file: self.from_file@,
            specifier: self.specifier@,
            is_re_export: self.is_re_export,
            is_type_only: self.is_type_only,
            local_bindings: bindings_view(self.local_bindings@),
            target: self.target@,
        }
    }
}

/// Edges by their characters.
pub open spec fn edges_view(edges: Seq<ImportEdge>) -> Seq<ImportEdgeView> {
    edges.map_values(|e: ImportEdge| e@)
}

/// An import of a file, before it is known what it comes to.
pub struct ImportCandidate {
    pub specifier: String,
    pub is_re_export: bool,
    pub is_type_only: bool,
    pub local_bindings: Vec<LocalBinding>,
}

/// An `ImportCandidate` by its characters.
pub struct ImportCandidateView {
    pub specifier: Seq<char>,
    pub is_re_export: bool,
    pub is_type_only: bool,
    pub local_bindings: Seq<LocalBindingView>,
}

impl View for ImportCandidate {
    type V = ImportCandidateView;

    open spec fn view(&self) -> ImportCandidateView {
        ImportCandidateView {
            specifier: self.specifier@,
            is_re_export: self.is_re_export,
            is_type_only: self.is_type_only,
            local_bindings: bindings_view(self.local_bindings@),
        }
    }
}

/// Candidates by their characters.
pub open spec fn candidates_view(candidates: Seq<ImportCandidate>) -> Seq<ImportCandidateView> {
    candidates.map_values(|c: ImportCandidate| c@)
}

// ---- collecting imports ----

/// The names that an import statement with these children binds.
pub open spec fn bound_names(children: Seq<Node>) -> Seq<LocalBindingView>
    decreases children.len(),
{
    if children.len() == 0 {
        Seq::empty()
    } else {
        let before = bound_names(children.drop_last());
        match children.last().kind {
            NodeKind::ImportBinding { local, imported } => before.push(
                LocalBindingView { local_name: local, imported_name: imported },
            ),
            _ => before,
        }
    }
}

/// The import that a statement makes, if it makes one. A list of names that
/// a module exports without naming another module imports nothing.
pub open spec fn statement_import(statement: Node) -> Option<ImportCandidateView> {
    match statement.kind {
        NodeKind::Import { source, type_only } => Some(
            ImportCandidateView {
                specifier: source,
                is_re_export: false,
                is_type_only: type_only,
                local_bindings: bound_names(statement.children),
            },
        ),
        NodeKind::ExportNamed { source: Some(source), type_only, .. } => Some(
            ImportCandidateView {
                specifier: source,
                is_re_export: true,
                is_type_only: type_only,
                local_bindings: Seq::empty(),
            },
        ),
        NodeKind::ExportAll { source, type_only } => Some(
            ImportCandidateView {
                specifier: source,
                is_re_export: true,
                is_type_only: type_only,
                local_bindings: Seq::empty(),
            },
        ),
        _ => None,
    }
}

/// The imports that the statements of a module make, in order.
pub open spec fn imports(body: Seq<Node>) -> Seq<ImportCandidateView>
    decreases body.len(),
{
    if body.len() == 0 {
        Seq::empty()
    } else {
        let before = imports(body.drop_last());
        match statement_import(body.last()) {
            Some(candidate) => before.push(candidate),
            None => before,
        }
    }
}

fn collect_bindings(children: &Vec<AstNode>) -> (bindings: Vec<LocalBinding>)
    ensures
        bindings_view(bindings@) == bound_names(syntax::nodes_view(children@)),
{
    let ghost all = syntax::nodes_view(children@);
    let mut bindings: Vec<LocalBinding> = Vec::new();
    proof {
        syntax::lemma_nodes_view(children@);
        assert(bindings_view(bindings@) =~= Seq::empty());
        assert(all.take(0) =~= Seq::empty());
    }
    for i in 0..children.len()
        invariant
            all.len() == children@.len(),
            forall|k: int| 0 <= k < children@.len() ==> #[trigger] all[k] == children@[k]@,
            bindings_view(bindings@) == bound_names(all.take(i as int)),
    {
        assert(all.take(i + 1).drop_last() =~= all.take(i as int));
        assert(all[i as int] == children@[i as int]@);
        if let NodeKind::ImportBinding { local, imported } = &children[i].kind {
            let ghost before = bindings_view(bindings@);
            let made = LocalBinding {
                local_name: local.clone(),
                imported_name: imported.clone(),
            };
            let ghost shown = made@;
            bindings.push(made);
            assert(bindings_view(bindings@) =~= before.push(shown));
        }
    }
    assert(all.take(children@.len() as int) =~= all);
    bindings
}

fn import_of(statement: &AstNode) -> (candidate: Option<ImportCandidate>)
    ensures
        match candidate {
            Some(c) => statement_import(statement@) == Some(c@),
            None => statement_import(statement@) is None,
        },
{
    match &statement.kind {
        NodeKind::Import { source, type_only } => {
            let local_bindings = collect_bindings(&statement.children);
            Some(
                ImportCandidate {
                    specifier: source.clone(),
                    is_re_export: false,
                    is_type_only: *type_only,
                    local_bindings,
                },
            )
        },
        NodeKind::ExportNamed { source, type_only, .. } => {
            match source {
                Some(source) => {
                    let local_bindings: Vec<LocalBinding> = Vec::new();
                    assert(bindings_view(local_bindings@) =~= Seq::empty());
                    Some(
                        ImportCandidate {
                            specifier: source.clone(),
                            is_re_export: true,
                            is_type_only: *type_only,
                            local_bindings,
                        },
                    )
                },
                None => None,
            }
        },
        NodeKind::ExportAll { source, type_only } => {
            let local_bindings: Vec<LocalBinding> = Vec::new();
            assert(bindings_view(local_bindings@) =~= Seq::empty());
            Some(
                ImportCandidate {
                    specifier: source.clone(),
                    is_re_export: true,
                    is_type_only: *type_only,
                    local_bindings,
                },
            )
        },
        _ => None,
    }
}

/// The imports that the statements of a module make, in order.
pub fn collect_import_specifiers(program: &Program) -> (candidates: Vec<ImportCandidate>)
    ensures
        candidates_view(candidates@) == imports(program@),
{
    let ghost all = program@;
    let mut candidates: Vec<ImportCandidate> = Vec::new();
    proof {
        syntax::lemma_nodes_view(program.body@);
        assert(candidates_view(candidates@) =~= Seq::empty());
        assert(all.take(0) =~= Seq::empty());
    }
    for i in 0..program.body.len()
        invariant
            all.len() == program.body@.len(),
            forall|k: int| 0 <= k < program.body@.len() ==> #[trigger] all[k] == program.body@[k]@,
            candidates_view(candidates@) == imports(all.take(i as int)),
    {
        assert(all.take(i + 1).drop_last() =~= all.take(i as int));
        assert(all[i as int] == program.body@[i as int]@);
        if let Some(candidate) = import_of(&program.body[i]) {
            let ghost before = candidates_view(candidates@);
            let ghost shown = candidate@;
            candidates.push(candidate);
            assert(candidates_view(candidates@) =~= before.push(shown));
        }
    }
    assert(all.take(program.body@.len() as int) =~= all);
    candidates
}

// ---- packages ----

/// The package that a specifier belongs to: its first segment, or its first
/// two where it begins with the `@` of a scope.
pub open spec fn package_name(specifier: Seq<char>) -> Seq<char> {
    let segments = text::split(specifier, '/');
    if specifier.len() > 0 && specifier[0] == '@' && segments.len() >= 2 {
        segments[0] + "/"@ + segments[1]
    } else {
        segments[0]
    }
}

/// The package that a specifier belongs to, whichever of its modules is
/// imported.
pub fn reduce_to_package_name(specifier: &str) -> (name: String)
    ensures
        name@ == package_name(specifier@),
{
    let segments = text::split_on(specifier, '/');
    proof {
        text::lemma_split_nonempty(specifier@, '/');
        assert(text::views(segments@)[0] == segments@[0]@);
        reveal_strlit("@");
        assert("@"@ =~= seq!['@']);
        if specifier@.len() > 0 && specifier@[0] == '@' {
            assert(specifier@.subrange(0, 1) =~= "@"@);
        }
        if "@"@.is_prefix_of(specifier@) {
            assert(specifier@.subrange(0, 1)[0] == '@');
        }
    }
    let mut name = segments[0].clone();
    if text::starts_with(specifier, "@") && segments.len() >= 2 {
        assert(text::views(segments@)[1] == segments@[1]@);
        name.append("/");
        name.append(&segments[1]);
    }
    name
}

// ---- aliases ----

/// A pattern or target of a path alias without the `/*` at its end.
pub open spec fn without_wildcard(pattern: Seq<char>) -> Seq<char> {
    match text::without_suffix(pattern, "/*"@) {
        Some(prefix) => prefix,
        None => pattern,
    }
}

fn strip_wildcard(pattern: &str) -> (prefix: String)
    ensures
        prefix@ == without_wildcard(pattern@),
{
    match text::strip_suffix(pattern, "/*") {
        Some(prefix) => prefix,
        None => pattern.to_string(),
    }
}

/// Whether an alias for these targets under `pattern` says anything: a
/// pattern that matches everything, or an alias for nothing, does not.
pub open spec fn is_usable(pattern: Seq<char>, targets: Seq<Seq<char>>) -> bool {
    without_wildcard(pattern).len() > 0 && without_wildcard(pattern) != "*"@ && targets.len() > 0
}

/// The aliases among path patterns and their targets, as the resolver takes
/// them: prefixes and what to put in their place.
pub open spec fn usable_aliases(entries: Seq<(Seq<char>, Seq<Seq<char>>)>) -> Seq<
    (Seq<char>, Seq<Seq<char>>),
>
    decreases entries.len(),
{
    if entries.len() == 0 {
        Seq::empty()
    } else {
        let before = usable_aliases(entries.drop_last());
        let (pattern, targets) = entries.last();
        if is_usable(pattern, targets) {
            before.push(
                (
                    without_wildcard(pattern),
                    targets.map_values(|t: Seq<char>| without_wildcard(t)),
                ),
            )
        } else {
            before
        }
    }
}

/// Path patterns and their targets by their characters.
pub open spec fn alias_entries(path_aliases: StringMap<Vec<String>>) -> Seq<
    (Seq<char>, Seq<Seq<char>>),
> {
    path_aliases.order().map_values(|k: Seq<char>| (k, text::views(path_aliases@[k]@)))
}

/// Aliases by their characters.
pub open spec fn aliases_view(aliases: Seq<(String, Vec<String>)>) -> Seq<
    (Seq<char>, Seq<Seq<char>>),
> {
    aliases.map_values(|a: (String, Vec<String>)| (a.0@, text::views(a.1@)))
}

/// The aliases of the resolver for path patterns and their targets.
pub fn tsconfig_aliases_to_resolver_alias(path_aliases: &StringMap<Vec<String>>) -> (aliases: Vec<
    (String, Vec<String>),
>)
    ensures
        aliases_view(aliases@) == usable_aliases(alias_entries(*path_aliases)),
{
    let ghost all = alias_entries(*path_aliases);
    let mut aliases: Vec<(String, Vec<String>)> = Vec::new();
    assert(aliases_view(aliases@) =~= Seq::empty());
    let count: usize = path_aliases.len();
    for i in 0..count
        invariant
            count == path_aliases.order().len(),
            all == alias_entries(*path_aliases),
            aliases_view(aliases@) == usable_aliases(all.take(i as int)),
    {
        assert(all.take(i + 1).drop_last() =~= all.take(i as int));
        let pattern = path_aliases.key_at(i);
        let targets = path_aliases.value_at(i);
        assert(all[i as int] == (pattern@, text::views(targets@)));
        let prefix = strip_wildcard(pattern);
        if prefix.as_str().unicode_len() > 0 && !text::same(&prefix, "*") && targets.len() > 0 {
            let mut values: Vec<String> = Vec::new();
            for j in 0..targets.len()
                invariant
                    text::views(values@) == text::views(targets@.take(j as int)).map_values(
                        |t: Seq<char>| without_wildcard(t),
                    ),
            {
                let ghost before = text::views(values@);
                let value = strip_wildcard(&targets[j]);
                let ghost shown = value@;
                values.push(value);
                assert(text::views(values@) =~= before.push(shown));
                assert(text::views(targets@.take(j + 1)) =~= text::views(
                    targets@.take(j as int),
                ).push(targets@[j as int]@));
                assert(text::views(values@) =~= text::views(targets@.take(j + 1)).map_values(
                    |t: Seq<char>| without_wildcard(t),
                ));
            }
            assert(targets@.take(targets@.len() as int) =~= targets@);
            let ghost before = aliases_view(aliases@);
            let ghost shown = (prefix@, text::views(values@));
            aliases.push((prefix, values));
            assert(aliases_view(aliases@) =~= before.push(shown));
        }
    }
    assert(all.take(count as int) =~= all);
    aliases
}

/// A target of an alias as a path from the root of the project. The resolver
/// takes a target without a slash in front for the name of a package.
pub open spec fn rooted(target: Seq<char>) -> Seq<char> {
    if "/"@.is_prefix_of(target) {
        target
    } else {
        "/"@ + target
    }
}

/// Aliases with their targets as paths from the root of the project.
pub open spec fn rooted_aliases(aliases: Seq<(Seq<char>, Seq<Seq<char>>)>) -> Seq<
    (Seq<char>, Seq<Seq<char>>),
> {
    aliases.map_values(
        |a: (Seq<char>, Seq<Seq<char>>)| (a.0, a.1.map_values(|t: Seq<char>| rooted(t))),
    )
}

fn root_target(target: &str) -> (path: String)
    ensures
        path@ == rooted(target@),
{
    if text::starts_with(target, "/") {
        target.to_string()
    } else {
        String::from_str("/").concat(target)
    }
}

/// Aliases with their targets as paths from the root of the project.
pub fn root_aliases(aliases: &[(String, Vec<String>)]) -> (r: Vec<(String, Vec<String>)>)
    ensures
        aliases_view(r@) == rooted_aliases(aliases_view(aliases@)),
{
    let mut r: Vec<(String, Vec<String>)> = Vec::new();
    assert(aliases_view(r@) =~= rooted_aliases(aliases_view(aliases@.take(0))));
    for i in 0..aliases.len()
        invariant
            aliases_view(r@) == rooted_aliases(aliases_view(aliases@.take(i as int))),
    {
        let targets = &aliases[i].1;
        let mut values: Vec<String> = Vec::new();
        for j in 0..targets.len()
            invariant
                text::views(values@) == text::views(targets@.take(j as int)).map_values(
                    |t: Seq<char>| rooted(t),
                ),
        {
            let ghost before = text::views(values@);
            let value = root_target(&targets[j]);
            let ghost shown = value@;
            values.push(value);
            assert(text::views(values@) =~= before.push(shown));
            assert(text::views(targets@.take(j + 1)) =~= text::views(targets@.take(j as int)).push(
                targets@[j as int]@,
            ));
            assert(text::views(values@) =~= text::views(targets@.take(j + 1)).map_values(
                |t: Seq<char>| rooted(t),
            ));
        }
        assert(targets@.take(targets@.len() as int) =~= targets@);
        let ghost before = aliases_view(r@);
        let prefix = aliases[i].0.clone();
        let ghost shown = (prefix@, text::views(values@));
        r.push((prefix, values));
        assert(aliases_view(r@) =~= before.push(shown));
        assert(aliases_view(aliases@.take(i + 1)) =~= aliases_view(aliases@.take(i as int)).push(
            (aliases@[i as int].0@, text::views(aliases@[i as int].1@)),
        ));
        assert(aliases_view(r@) =~= rooted_aliases(aliases_view(aliases@.take(i + 1))));
    }
    assert(aliases@.take(aliases@.len() as int) =~= aliases@);
    r
}

// ---- the resolver ----

/// What a resolver goes by: the files, the extensions that it tries in
/// order, the conditions of package exports that it accepts, and the aliases.
pub struct ResolverSetup {
    pub files: Map<Seq<char>, Seq<u8>>,
    pub extensions: Seq<Seq<char>>,
    pub conditions: Seq<Seq<char>>,
    pub aliases: Seq<(Seq<char>, Seq<Seq<char>>)>,
}

/// An import resolver (`oxc_resolver::ResolverGeneric`).
#[verifier::external_type_specification]
#[verifier::external_body]
#[verifier::reject_recursive_types(Fs)]
pub struct ExResolverGeneric<Fs>(ResolverGeneric<Fs>);

/// What a resolver was made to go by.
pub uninterp spec fn resolver_setup(resolver: ResolverGeneric<VfsFileSystem>) -> ResolverSetup;

/// What a resolver that goes by `setup` may say of a specifier in a directory
/// (`ResolverGeneric::resolve`): the parts of a path that it finds, or the
/// words of its error. It may have more than one thing to say: where a
/// `package.json` maps a name to a large object of conditions, the first that
/// holds is taken, in an order that is drawn anew for each object.
pub uninterp spec fn answers(
    setup: ResolverSetup,
    from_dir: Seq<char>,
    specifier: Seq<char>,
) -> Set<Result<Seq<PathPart<Seq<char>>>, Seq<char>>>;

/// A resolution by its characters.
pub open spec fn resolution_view(resolution: Result<Vec<PathPart<String>>, String>) -> Result<
    Seq<PathPart<Seq<char>>>,
    Seq<char>,
> {
    match resolution {
        Ok(parts) => Ok(vfs_filesystem::parts_view(parts@)),
        Err(text) => Err(text@),
    }
}

/// A resolver over `fs` with these options and the crate's defaults for the
/// others (`ResolverGeneric::new_with_file_system`). `node_path` is off: with
/// it the resolver would also look in the directories that the variable
/// `NODE_PATH` of the environment names.
#[verifier::external_body]
fn make_resolver(
    fs: VfsFileSystem,
    extensions: Vec<String>,
    condition_names: Vec<String>,
    aliases: Vec<(String, Vec<String>)>,
) -> (resolver: ResolverGeneric<VfsFileSystem>)
    ensures
        resolver_setup(resolver) == (ResolverSetup {
            files: fs@.files,
            extensions: text::views(extensions@),
            conditions: text::views(condition_names@),
            aliases: aliases_view(aliases@),
        }),
{
    let alias = aliases.into_iter().map(|(prefix, targets)| {
        (prefix, targets.into_iter().map(AliasValue::Path).collect())
    }).collect();
    let options = ResolveOptions {
        extensions,
        condition_names,
        alias,
        node_path: false,
        ..Default::default()
    };
    ResolverGeneric::new_with_file_system(fs, options)
}

/// What `resolver` makes of `specifier` in the directory `from_dir`
/// (`ResolverGeneric::resolve`). It was made without `node_path`, so it asks
/// nothing but the file system that it was given: its setup and the arguments
/// decide what it may say. Which of that it says is left open.
#[verifier::external_body]
fn resolve_in(
    resolver: &ResolverGeneric<VfsFileSystem>,
    from_dir: &Path,
    specifier: &str,
) -> (found: Result<Vec<PathPart<String>>, String>)
    requires
        vfs_filesystem::path_spelling(from_dir) is Some,
    ensures
        answers(
            resolver_setup(*resolver),
            vfs_filesystem::path_spelling(from_dir)->0,
            specifier@,
        ).contains(resolution_view(found)),
{
    match resolver.resolve(from_dir, specifier) {
        Ok(found) => Ok(parts_of(found.path())),
        Err(error) => Err(error.to_string()),
    }
}

/// The path of the directory that a path lies in (`Path::parent`), if it has
/// one.
pub uninterp spec fn parent_path(path: Seq<char>) -> Option<Seq<char>>;

/// The path of the directory that `path` lies in (`Path::parent`): the path
/// without its last component, as it is written. Slashes at the end, repeated
/// slashes and single dots are no components, but for a dot at the start.
#[verifier::external_body]
fn parent_of(path: &str) -> (parent: Option<String>)
    ensures
        text::opt_view(parent) == parent_path(path@),
        text::is_portable_path(path@) ==> text::opt_view(parent) == text::path_above(path@),
{
    Path::new(path).parent().map(|parent| parent.display().to_string())
}

/// The directory from which the imports of a file are resolved.
pub open spec fn directory_of(path: Seq<char>) -> Seq<char> {
    let parent = if text::is_portable_path(path) {
        text::path_above(path)
    } else {
        parent_path(path)
    };
    match parent {
        Some(parent) => parent,
        None => Seq::empty(),
    }
}

/// The extensions that are tried, in order. Declaration files have entries of
/// their own: appending `.ts` to a name does not find its `.d.ts`.
pub open spec fn resolvable_extensions() -> Seq<Seq<char>> {
    seq![
        ".ts"@,
        ".tsx"@,
        ".d.ts"@,
        ".js"@,
        ".jsx"@,
        ".mjs"@,
        ".cjs"@,
        ".mts"@,
        ".d.mts"@,
        ".cts"@,
        ".d.cts"@,
        ".json"@,
    ]
}

/// The conditions of package exports that are accepted.
pub open spec fn condition_names() -> Seq<Seq<char>> {
    seq!["node"@, "import"@, "require"@]
}

/// What the resolver of a project goes by.
pub open spec fn project_setup(vfs: VfsView, path_aliases: StringMap<Vec<String>>) -> ResolverSetup {
    ResolverSetup {
        files: vfs.files,
        extensions: resolvable_extensions(),
        conditions: condition_names(),
        aliases: rooted_aliases(usable_aliases(alias_entries(path_aliases))),
    }
}

/// The resolver of a project, for all of its files.
pub fn build_resolver(vfs: &Vfs, path_aliases: &StringMap<Vec<String>>) -> (resolver:
    ResolverGeneric<VfsFileSystem>)
    ensures
        resolver_setup(resolver) == project_setup(vfs@, *path_aliases),
{
    let extensions: Vec<String> =
        vec![
        ".ts".to_string(),
        ".tsx".to_string(),
        ".d.ts".to_string(),
        ".js".to_string(),
        ".jsx".to_string(),
        ".mjs".to_string(),
        ".cjs".to_string(),
        ".mts".to_string(),
        ".d.mts".to_string(),
        ".cts".to_string(),
        ".d.cts".to_string(),
        ".json".to_string(),
    ];
    let conditions: Vec<String> =
        vec!["node".to_string(), "import".to_string(), "require".to_string()];
    assert(text::views(extensions@) =~= resolvable_extensions());
    assert(text::views(conditions@) =~= condition_names());
    let aliases = tsconfig_aliases_to_resolver_alias(path_aliases);
    make_resolver(
        VfsFileSystem::new(vfs.clone()),
        extensions,
        conditions,
        root_aliases(aliases.as_slice()),
    )
}

/// Whether a specifier is plainly local.
pub open spec fn is_relative(specifier: Seq<char>) -> bool {
    "./"@.is_prefix_of(specifier) || "../"@.is_prefix_of(specifier)
}

/// Whether a specifier is plainly local.
pub fn is_relative_specifier(specifier: &str) -> (r: bool)
    ensures
        r == is_relative(specifier@),
{
    text::starts_with(specifier, "./") || text::starts_with(specifier, "../")
}

/// What an import comes to of which the resolver said `found`. A path that is
/// no file of the project is as good as none: for a plainly local specifier
/// that is a fault, for any other it means a package from outside.
pub open spec fn import_target(
    files: Map<Seq<char>, Seq<u8>>,
    from_dir: Seq<char>,
    specifier: Seq<char>,
    found: Result<Seq<PathPart<Seq<char>>>, Seq<char>>,
) -> ImportTargetView {
    match found {
        Ok(parts) => {
            let key = vfs_filesystem::key_of(parts);
            if files.contains_key(key) {
                ImportTargetView::LocalFile(key)
            } else if is_relative(specifier) {
                ImportTargetView::UnresolvedLocal(
                    "resolved to '"@ + key + "' but that path is not in the Vfs (from_dir='"@
                        + from_dir + "')"@,
                )
            } else {
                ImportTargetView::External(package_name(specifier))
            }
        },
        Err(text) => if is_relative(specifier) {
            ImportTargetView::UnresolvedLocal(
                "resolver error from_dir='"@ + from_dir + "': "@ + text,
            )
        } else {
            ImportTargetView::External(package_name(specifier))
        },
    }
}

/// What an import comes to of which the resolver said `found`.
pub fn classify_resolution(
    vfs: &Vfs,
    from_dir: &str,
    specifier: &str,
    found: Result<Vec<PathPart<String>>, String>,
) -> (target: ImportTarget)
    ensures
        target@ == import_target(vfs@.files, from_dir@, specifier@, resolution_view(found)),
{
    match found {
        Ok(parts) => {
            let key = vfs_filesystem::normalize_parts(&parts);
            if vfs.file_exists(&key) {
                ImportTarget::LocalFile(key)
            } else if is_relative_specifier(specifier) {
                let mut reason = String::from_str("resolved to '");
                reason.append(&key);
                reason.append("' but that path is not in the Vfs (from_dir='");
                reason.append(from_dir);
                reason.append("')");
                ImportTarget::UnresolvedLocal(reason)
            } else {
                ImportTarget::External(reduce_to_package_name(specifier))
            }
        },
        Err(text) => {
            if is_relative_specifier(specifier) {
                let mut reason = String::from_str("resolver error from_dir='");
                reason.append(from_dir);
                reason.append("': ");
                reason.append(&text);
                ImportTarget::UnresolvedLocal(reason)
            } else {
                ImportTarget::External(reduce_to_package_name(specifier))
            }
        },
    }
}

// ---- edges ----

/// The edge for an import of the file at `path` of which the resolver said
/// `found`.
pub open spec fn edge(
    files: Map<Seq<char>, Seq<u8>>,
    path: Seq<char>,
    candidate: ImportCandidateView,
    found: Result<Seq<PathPart<Seq<char>>>, Seq<char>>,
) -> ImportEdgeView {
    ImportEdgeView {
        from_file: path,
        specifier: candidate.specifier,
        is_re_export: candidate.is_re_export,
        is_type_only: candidate.is_type_only,
        local_bindings: candidate.local_bindings,
        target: import_target(files, directory_of(path), candidate.specifier, found),
    }
}

/// Whether `made` is the edge for an import of the file at `path`: the one for
/// something that the resolver may say of its specifier in the directory of
/// the file.
pub open spec fn is_edge(
    setup: ResolverSetup,
    files: Map<Seq<char>, Seq<u8>>,
    path: Seq<char>,
    candidate: ImportCandidateView,
    made: ImportEdgeView,
) -> bool {
    exists|found: Result<Seq<PathPart<Seq<char>>>, Seq<char>>| #[trigger]
        answers(setup, directory_of(path), candidate.specifier).contains(found) && made == edge(
            files,
            path,
            candidate,
            found,
        )
}

/// Whether `edges` are those for the imports of the file at `path`, one for
/// each, in order.
pub open spec fn are_edges(
    setup: ResolverSetup,
    files: Map<Seq<char>, Seq<u8>>,
    path: Seq<char>,
    body: Seq<Node>,
    edges: Seq<ImportEdgeView>,
) -> bool {
    &&& edges.len() == imports(body).len()
    &&& forall|i: int|
        0 <= i < edges.len() ==> is_edge(setup, files, path, imports(body)[i], #[trigger] edges[i])
}

/// The edges for the imports of the program of the file at `file_path`.
pub fn resolve_imports_for_file(
    resolver: &ResolverGeneric<VfsFileSystem>,
    vfs: &Vfs,
    file_path: &str,
    program: &Program,
) -> (edges: Vec<ImportEdge>)
    ensures
        are_edges(
            resolver_setup(*resolver),
            vfs@.files,
            file_path@,
            program@,
            edges_view(edges@),
        ),
{
    let from_dir = match parent_of(file_path) {
        Some(parent) => parent,
        None => String::new(),
    };
    assert(from_dir@ =~= directory_of(file_path@));
    let candidates = collect_import_specifiers(program);
    let ghost all = imports(program@);
    let ghost setup = resolver_setup(*resolver);
    let mut edges: Vec<ImportEdge> = Vec::new();
    for candidate in it: candidates
        invariant
            it.seq() == candidates@,
            all == candidates_view(candidates@),
            from_dir@ == directory_of(file_path@),
            setup == resolver_setup(*resolver),
            edges@.len() == it.index(),
            forall|i: int|
                0 <= i < edges@.len() ==> is_edge(
                    setup,
                    vfs@.files,
                    file_path@,
                    all[i],
                    (#[trigger] edges@[i])@,
                ),
    {
        let ghost shown_candidate = candidate@;
        let found = resolve_in(resolver, path_of(&from_dir), &candidate.specifier);
        let ghost shown_found = resolution_view(found);
        let target = classify_resolution(vfs, &from_dir, &candidate.specifier, found);
        let made = ImportEdge {
            from_file: file_path.to_string(),
            specifier: candidate.specifier,
            is_re_export: candidate.is_re_export,
            is_type_only: candidate.is_type_only,
            local_bindings: candidate.local_bindings,
            target,
        };
        assert(all[it.index()] == shown_candidate);
        assert(made@ == edge(vfs@.files, file_path@, shown_candidate, shown_found));
        assert(is_edge(setup, vfs@.files, file_path@, shown_candidate, made@));
        edges.push(made);
    }
    edges
}

/// Whether `result` is what the stage says of the file at `path`.
pub open spec fn are_file_imports(
    setup: ResolverSetup,
    vfs: VfsView,
    path: Seq<char>,
    result: Result<Seq<ImportEdgeView>, FileErrorView>,
) -> bool {
    match vfs.text_of(path) {
        None => result == Err::<Seq<ImportEdgeView>, _>(FileErrorView::InvalidUtf8 { path }),
        Some(source) => result matches Ok(edges) && are_edges(
            setup,
            vfs.files,
            path,
            recorder::parsed_program(source, source_type::source_kind(path)),
            edges,
        ),
    }
}

/// A result by its characters.
pub open spec fn edges_result(result: Result<Vec<ImportEdge>, FileError>) -> Result<
    Seq<ImportEdgeView>,
    FileErrorView,
> {
    match result {
        Ok(edges) => Ok(edges_view(edges@)),
        Err(error) => Err(error@),
    }
}

/// The imports of the file at `path`.
pub fn resolve_file(vfs: &Vfs, resolver: &ResolverGeneric<VfsFileSystem>, path: &str) -> (result:
    Result<Vec<ImportEdge>, FileError>)
    ensures
        are_file_imports(resolver_setup(*resolver), vfs@, path@, edges_result(result)),
{
    match vfs.read_utf8(path) {
        None => Err(FileError::InvalidUtf8 { path: path.to_string() }),
        Some(source) => {
            let kind = source_type::resolve_source_type(path);
            let program = recorder::parse_program(source, kind);
            Ok(resolve_imports_for_file(resolver, vfs, path, &program))
        },
    }
}

/// What the stage says of many files.
#[derive(Debug)]
pub struct ResolveBatch {
    pub edges: Vec<ImportEdge>,
    pub failures: Vec<FileError>,
}

impl ResolveBatch {
    /// Whether the batch holds `results`.
    pub open spec fn holds(
        &self,
        results: Seq<Result<Seq<ImportEdgeView>, FileErrorView>>,
    ) -> bool {
        &&& edges_view(self.edges@) == batch::collected(results)
        &&& batch::errors_view(self.failures@) == batch::failures(results)
    }

    /// An empty batch.
    pub fn new() -> (b: Self)
        ensures
            b.holds(Seq::empty()),
    {
        let b = ResolveBatch { edges: Vec::new(), failures: Vec::new() };
        assert(edges_view(b.edges@) =~= Seq::empty());
        assert(batch::errors_view(b.failures@) =~= Seq::empty());
        b
    }

    /// Adds the result of one more file.
    pub fn record(&mut self, result: Result<Vec<ImportEdge>, FileError>)
        ensures
            forall|results: Seq<Result<Seq<ImportEdgeView>, FileErrorView>>| #[trigger]
                old(self).holds(results) ==> final(self).holds(results.push(edges_result(result))),
    {
        let ghost added = edges_result(result);
        match result {
            Ok(found) => {
                let mut found = found;
                self.edges.append(&mut found);
            },
            Err(error) => self.failures.push(error),
        }
        proof {
            assert forall|results: Seq<Result<Seq<ImportEdgeView>, FileErrorView>>| #[trigger]
                old(self).holds(results) implies self.holds(results.push(added)) by {
                let more = results.push(added);
                assert(more.drop_last() =~= results);
                assert(edges_view(self.edges@) =~= batch::collected(more));
                assert(batch::errors_view(self.failures@) =~= batch::failures(more));
            }
        }
    }
}

impl Default for ResolveBatch {
    fn default() -> (b: Self)
        ensures
            b.holds(Seq::empty()),
    {
        ResolveBatch::new()
    }
}

/// Whether `results` are what the stage says of the files at `paths`, one for
/// each, in order.
pub open spec fn are_imports(
    setup: ResolverSetup,
    vfs: VfsView,
    paths: Seq<Seq<char>>,
    results: Seq<Result<Seq<ImportEdgeView>, FileErrorView>>,
) -> bool {
    &&& results.len() == paths.len()
    &&& forall|i: int|
        0 <= i < results.len() ==> are_file_imports(setup, vfs, paths[i], #[trigger] results[i])
}

/// The imports of the files at `paths`, in a project with these path aliases.
pub fn resolve_all(vfs: &Vfs, path_aliases: &StringMap<Vec<String>>, paths: &[&str]) -> (b:
    ResolveBatch)
    ensures
        exists|results: Seq<Result<Seq<ImportEdgeView>, FileErrorView>>| #[trigger]
            b.holds(results) && are_imports(
                project_setup(vfs@, *path_aliases),
                vfs@,
                text::str_views(paths@),
                results,
            ),
{
    let resolver = build_resolver(vfs, path_aliases);
    let ghost setup = project_setup(vfs@, *path_aliases);
    let ghost mut results: Seq<Result<Seq<ImportEdgeView>, FileErrorView>> = Seq::empty();
    let mut b = ResolveBatch::new();
    for i in 0..paths.len()
        invariant
            setup == resolver_setup(resolver),
            b.holds(results),
            results.len() == i,
            forall|k: int|
                0 <= k < results.len() ==> are_file_imports(
                    setup,
                    vfs@,
                    text::str_views(paths@)[k],
                    #[trigger] results[k],
                ),
    {
        let result = resolve_file(vfs, &resolver, paths[i]);
        let ghost shown = edges_result(result);
        assert(text::str_views(paths@)[i as int] == paths@[i as int]@);
        b.record(result);
        proof {
            results = results.push(shown);
        }
    }
    b
}

// ---- laws ----

/// What an import comes to is never left open or mistaken: a local file is
/// one that the project has, a plainly local specifier never counts as a
/// package, and any other never counts as a broken local import.
pub proof fn law_targets_are_told_apart(
    files: Map<Seq<char>, Seq<u8>>,
    from_dir: Seq<char>,
    specifier: Seq<char>,
    found: Result<Seq<PathPart<Seq<char>>>, Seq<char>>,
)
    ensures
        match import_target(files, from_dir, specifier, found) {
            ImportTargetView::LocalFile(path) => files.contains_key(path),
            ImportTargetView::External(name) => !is_relative(specifier) && name == package_name(
                specifier,
            ),
            ImportTargetView::UnresolvedLocal(_) => is_relative(specifier),
        },
{
}

/// Every edge of a file leads from that file, and what it leads to is told
/// apart as for any import, whatever the resolver said.
pub proof fn law_edges_are_told_apart(
    setup: ResolverSetup,
    files: Map<Seq<char>, Seq<u8>>,
    path: Seq<char>,
    body: Seq<Node>,
    edges: Seq<ImportEdgeView>,
    i: int,
)
    requires
        are_edges(setup, files, path, body, edges),
        0 <= i < edges.len(),
    ensures
        edges[i].from_file == path,
        edges[i].specifier == imports(body)[i].specifier,
        match edges[i].target {
            ImportTargetView::LocalFile(key) => files.contains_key(key),
            ImportTargetView::External(name) => !is_relative(edges[i].specifier) && name
                == package_name(edges[i].specifier),
            ImportTargetView::UnresolvedLocal(_) => is_relative(edges[i].specifier),
        },
{
    assert(is_edge(setup, files, path, imports(body)[i], edges[i]));
}

/// Handing on the exports of another module binds no name.
pub proof fn law_re_exports_bind_nothing(body: Seq<Node>, i: int)
    requires
        0 <= i < imports(body).len(),
    ensures
        imports(body)[i].is_re_export ==> imports(body)[i].local_bindings.len() == 0,
    decreases body.len(),
{
    if body.len() > 0 {
        if i < imports(body.drop_last()).len() {
            law_re_exports_bind_nothing(body.drop_last(), i);
        }
    }
}

proof fn lemma_usable(entries: Seq<(Seq<char>, Seq<Seq<char>>)>, i: int)
    requires
        0 <= i < usable_aliases(entries).len(),
    ensures
        usable_aliases(entries)[i].0.len() > 0,
        usable_aliases(entries)[i].0 != "*"@,
        usable_aliases(entries)[i].1.len() > 0,
    decreases entries.len(),
{
    if entries.len() > 0 {
        if i < usable_aliases(entries.drop_last()).len() {
            lemma_usable(entries.drop_last(), i);
        }
    }
}

/// No alias of a project matches everything, none is for nothing, and all
/// that they lead to lies below the root of the project.
pub proof fn law_aliases_are_usable(vfs: VfsView, path_aliases: StringMap<Vec<String>>, i: int)
    requires
        0 <= i < project_setup(vfs, path_aliases).aliases.len(),
    ensures
        project_setup(vfs, path_aliases).aliases[i].0.len() > 0,
        project_setup(vfs, path_aliases).aliases[i].0 != "*"@,
        project_setup(vfs, path_aliases).aliases[i].1.len() > 0,
        forall|k: int|
            0 <= k < project_setup(vfs, path_aliases).aliases[i].1.len() ==> "/"@.is_prefix_of(
                #[trigger] project_setup(vfs, path_aliases).aliases[i].1[k],
            ),
{
    let entries = alias_entries(path_aliases);
    lemma_usable(entries, i);
    let targets = usable_aliases(entries)[i].1;
    assert forall|k: int| 0 <= k < targets.len() implies "/"@.is_prefix_of(
        #[trigger] project_setup(vfs, path_aliases).aliases[i].1[k],
    ) by {
        assert(rooted(targets[k]).subrange(0, "/"@.len() as int) =~= "/"@);
    }
}

proof fn lemma_package_segments(specifier: Seq<char>)
    ensures
        ({
            let segments = text::split(specifier, '/');
            let name = package_name(specifier);
            &&& specifier.len() > 0 && specifier[0] == '@' && segments.len() >= 2
                ==> text::split(name, '/') == segments.take(2) && name.len() > 0 && name[0] == '@'
            &&& !(specifier.len() > 0 && specifier[0] == '@' && segments.len() >= 2)
                ==> text::split(name, '/') == segments.take(1)
        }),
{
    let segments = text::split(specifier, '/');
    text::lemma_split_nonempty(specifier, '/');
    text::law_split_pieces_lack_separator(specifier, '/');
    reveal_strlit("/");
    assert("/"@ =~= seq!['/']);
    if specifier.len() > 0 && specifier[0] == '@' && segments.len() >= 2 {
        let two = segments.take(2);
        assert(two.drop_last() =~= seq![segments[0]]);
        assert(text::join(seq![segments[0]], seq!['/']) == segments[0]);
        assert(text::join(two, seq!['/']) == package_name(specifier));
        assert(!two[0].contains('/') && !two[1].contains('/'));
        text::law_split_undoes_join(two, '/');
        text::lemma_first_piece(specifier, '/');
    } else {
        let one = segments.take(1);
        assert(text::join(one, seq!['/']) == segments[0]);
        assert(!one[0].contains('/'));
        text::law_split_undoes_join(one, '/');
    }
}

/// The package of a package is the package itself.
pub proof fn law_packages_are_their_own(specifier: Seq<char>)
    ensures
        package_name(package_name(specifier)) == package_name(specifier),
{
    lemma_package_segments(specifier);
    text::lemma_split_nonempty(specifier, '/');
}

/// A module of a package belongs to that package, however deep it lies. A
/// scope on its own is no package: what follows it names one.
pub proof fn law_modules_belong_to_their_package(package: Seq<char>, module: Seq<char>)
    requires
        package.len() > 0,
        package_name(package) == package,
        package[0] == '@' ==> text::split(package, '/').len() >= 2,
    ensures
        package_name(package.push('/') + module) == package,
{
    let whole = package.push('/') + module;
    let segments = text::split(package, '/');
    text::law_split_at_separator(package, module, '/');
    text::lemma_split_nonempty(package, '/');
    text::lemma_split_nonempty(module, '/');
    assert(whole[0] == package[0]);
    assert(text::split(whole, '/')[0] == segments[0]);
    if package[0] == '@' {
        assert(text::split(whole, '/')[1] == segments[1]);
    }
}

/// What the resolver of a project goes by: the files of the project alone, the
/// extensions in this order, and these conditions of package exports.
pub proof fn law_resolvers_try_these_extensions(
    vfs: VfsView,
    path_aliases: StringMap<Vec<String>>,
)
    ensures
        project_setup(vfs, path_aliases).files == vfs.files,
        project_setup(vfs, path_aliases).extensions.len() == 12,
        project_setup(vfs, path_aliases).extensions[0] == ".ts"@,
        project_setup(vfs, path_aliases).extensions[1] == ".tsx"@,
        project_setup(vfs, path_aliases).extensions[2] == ".d.ts"@,
        project_setup(vfs, path_aliases).extensions[3] == ".js"@,
        project_setup(vfs, path_aliases).extensions[4] == ".jsx"@,
        project_setup(vfs, path_aliases).extensions[5] == ".mjs"@,
        project_setup(vfs, path_aliases).extensions[6] == ".cjs"@,
        project_setup(vfs, path_aliases).extensions[7] == ".mts"@,
        project_setup(vfs, path_aliases).extensions[8] == ".d.mts"@,
        project_setup(vfs, path_aliases).extensions[9] == ".cts"@,
        project_setup(vfs, path_aliases).extensions[10] == ".d.cts"@,
        project_setup(vfs, path_aliases).extensions[11] == ".json"@,
        project_setup(vfs, path_aliases).conditions.len() == 3,
        project_setup(vfs, path_aliases).conditions[0] == "node"@,
        project_setup(vfs, path_aliases).conditions[1] == "import"@,
        project_setup(vfs, path_aliases).conditions[2] == "require"@,
{
}

/// Every file that is analysed can be imported without its extension: the
/// resolver tries every extension of a file that can be parsed.
pub proof fn law_what_is_parsed_can_be_imported(
    vfs: VfsView,
    path_aliases: StringMap<Vec<String>>,
    stem: Seq<char>,
    extension: Seq<char>,
)
    requires
        !extension.contains('.'),
        file_classify::is_parseable(stem + "."@ + extension),
    ensures
        project_setup(vfs, path_aliases).extensions.contains("."@ + extension),
{
    let all = project_setup(vfs, path_aliases).extensions;
    file_classify::law_extensions_tell_what_can_be_parsed(stem, extension);
    law_resolvers_try_these_extensions(vfs, path_aliases);
    reveal_strlit(".");
    reveal_strlit("js");
    reveal_strlit(".js");
    assert("."@ + "js"@ =~= ".js"@);
    assert(all.contains(all[3]));
    reveal_strlit("jsx");
    reveal_strlit(".jsx");
    assert("."@ + "jsx"@ =~= ".jsx"@);
    assert(all.contains(all[4]));
    reveal_strlit("ts");
    reveal_strlit(".ts");
    assert("."@ + "ts"@ =~= ".ts"@);
    assert(all.contains(all[0]));
    reveal_strlit("tsx");
    reveal_strlit(".tsx");
    assert("."@ + "tsx"@ =~= ".tsx"@);
    assert(all.contains(all[1]));
    reveal_strlit("mjs");
    reveal_strlit(".mjs");
    assert("."@ + "mjs"@ =~= ".mjs"@);
    assert(all.contains(all[5]));
    reveal_strlit("cjs");
    reveal_strlit(".cjs");
    assert("."@ + "cjs"@ =~= ".cjs"@);
    assert(all.contains(all[6]));
    reveal_strlit("mts");
    reveal_strlit(".mts");
    assert("."@ + "mts"@ =~= ".mts"@);
    assert(all.contains(all[7]));
    reveal_strlit("cts");
    reveal_strlit(".cts");
    assert("."@ + "cts"@ =~= ".cts"@);
    assert(all.contains(all[9]));
}

/// Each import statement, each export from another module and each export of
/// all of another module makes one import, in order, with the specifier that it
/// names; only the first binds names, and no other statement makes one.
pub proof fn law_imports_stand_in_order(before: Seq<Node>, statement: Node)
    ensures
        imports(Seq::empty()).len() == 0,
        imports(before.push(statement)) == imports(before) + (match statement.kind {
            NodeKind::Import { source, type_only } => seq![
                ImportCandidateView {
                    specifier: source,
                    is_re_export: false,
                    is_type_only: type_only,
                    local_bindings: bound_names(statement.children),
                },
            ],
            NodeKind::ExportNamed { source: Some(source), type_only, .. } => seq![
                ImportCandidateView {
                    specifier: source,
                    is_re_export: true,
                    is_type_only: type_only,
                    local_bindings: Seq::empty(),
                },
            ],
            NodeKind::ExportAll { source, type_only } => seq![
                ImportCandidateView {
                    specifier: source,
                    is_re_export: true,
                    is_type_only: type_only,
                    local_bindings: Seq::empty(),
                },
            ],
            _ => Seq::empty(),
        }),
{
    assert(before.push(statement).drop_last() =~= before);
    assert(imports(before) + Seq::empty() =~= imports(before));
    if let Some(candidate) = statement_import(statement) {
        assert(imports(before).push(candidate) =~= imports(before) + seq![candidate]);
    }
}

/// Each name that an import statement binds is told with what it is imported
/// as, in order.
pub proof fn law_bindings_stand_in_order(before: Seq<Node>, child: Node)
    ensures
        bound_names(Seq::empty()).len() == 0,
        child.kind matches NodeKind::ImportBinding { local, imported } ==> bound_names(
            before.push(child),
        ) == bound_names(before).push(
            LocalBindingView { local_name: local, imported_name: imported },
        ),
        !(child.kind is ImportBinding) ==> bound_names(before.push(child)) == bound_names(before),
{
    assert(before.push(child).drop_last() =~= before);
}

/// A package is named by what precedes the first slash, and a package of a
/// scope by the scope and what precedes the second one.
pub proof fn law_packages_are_named_by_their_first_segments(
    name: Seq<char>,
    second: Seq<char>,
    rest: Seq<char>,
)
    requires
        !name.contains('/'),
        !second.contains('/'),
    ensures
        package_name(name) == name,
        name.len() == 0 || name[0] != '@' ==> package_name(name + "/"@ + rest) == name,
        name.len() > 0 && name[0] == '@' ==> package_name(name + "/"@ + second) == name + "/"@
            + second,
        name.len() > 0 && name[0] == '@' ==> package_name(name + "/"@ + second + "/"@ + rest)
            == name + "/"@ + second,
{
    reveal_strlit("/");
    let scoped = name.push('/') + second;
    assert(name + "/"@ + rest =~= name.push('/') + rest);
    assert(name + "/"@ + second =~= scoped);
    assert(name + "/"@ + second + "/"@ + rest =~= scoped.push('/') + rest);
    if name.len() > 0 {
        assert((name.push('/') + rest)[0] == name[0]);
        assert(scoped[0] == name[0]);
        assert((scoped.push('/') + rest)[0] == name[0]);
    } else {
        assert((name.push('/') + rest)[0] == '/');
    }
    text::lemma_split_step(Seq::empty(), name, '/');
    text::lemma_split_step(name, second, '/');
    text::law_split_at_separator(name, rest, '/');
    text::law_split_at_separator(scoped, rest, '/');
    text::lemma_split_nonempty(rest, '/');
    assert(text::split(name.push('/') + rest, '/')[0] == name);
    assert(text::split(scoped, '/') =~= seq![name, second]);
    assert(text::split(scoped.push('/') + rest, '/')[0] == name);
    assert(text::split(scoped.push('/') + rest, '/')[1] == second);
}

/// A specifier is plainly local exactly if it begins with `./` or `../`.
pub proof fn law_local_specifiers_begin_with_dots(specifier: Seq<char>)
    ensures
        is_relative(specifier) <==> {
            ||| exists|end: Seq<char>| specifier == #[trigger] ("./"@ + end)
            ||| exists|end: Seq<char>| specifier == #[trigger] ("../"@ + end)
        },
{
    text::lemma_prefix_and_rest(specifier, "./"@);
    text::lemma_prefix_and_rest(specifier, "../"@);
}

/// An import leads to a file of the project exactly if the resolver found a
/// path whose key is one, and then to that file.
pub proof fn law_found_files_are_local(
    files: Map<Seq<char>, Seq<u8>>,
    from_dir: Seq<char>,
    specifier: Seq<char>,
    found: Result<Seq<PathPart<Seq<char>>>, Seq<char>>,
)
    ensures
        import_target(files, from_dir, specifier, found) is LocalFile <==> (found matches Ok(
            parts,
        ) && files.contains_key(vfs_filesystem::key_of(parts))),
        found matches Ok(parts) ==> files.contains_key(vfs_filesystem::key_of(parts))
            ==> import_target(files, from_dir, specifier, found) == ImportTargetView::LocalFile(
            vfs_filesystem::key_of(parts),
        ),
{
}

/// A plainly local import that leads nowhere says why: the path that was found
/// and is not there, or the words of the resolver, and from where it was
/// looked for.
pub proof fn law_lost_imports_say_why(
    files: Map<Seq<char>, Seq<u8>>,
    from_dir: Seq<char>,
    rest: Seq<char>,
    parts: Seq<PathPart<Seq<char>>>,
    words: Seq<char>,
)
    requires
        !files.contains_key(vfs_filesystem::key_of(parts)),
    ensures
        import_target(files, from_dir, "./"@ + rest, Ok(parts))
            == ImportTargetView::UnresolvedLocal(
            "resolved to '"@ + vfs_filesystem::key_of(parts)
                + "' but that path is not in the Vfs (from_dir='"@ + from_dir + "')"@,
        ),
        import_target(files, from_dir, "../"@ + rest, Err(words))
            == ImportTargetView::UnresolvedLocal(
            "resolver error from_dir='"@ + from_dir + "': "@ + words,
        ),
{
    law_local_specifiers_begin_with_dots("./"@ + rest);
    law_local_specifiers_begin_with_dots("../"@ + rest);
}

/// The `/*` at the end of a pattern or a target is taken off once, and nothing
/// else is.
pub proof fn law_wildcards_are_taken_off(prefix: Seq<char>, pattern: Seq<char>)
    ensures
        without_wildcard(prefix + "/*"@) == prefix,
        !"/*"@.is_suffix_of(pattern) ==> without_wildcard(pattern) == pattern,
{
    let whole = prefix + "/*"@;
    assert(whole.subrange(whole.len() - "/*"@.len(), whole.len() as int) =~= "/*"@);
    assert(whole.take(whole.len() - "/*"@.len()) =~= prefix);
}

/// Each pattern makes an alias of its prefix for the prefixes of its targets,
/// in order; a pattern without a prefix, the pattern `*`, and one without
/// targets make none.
pub proof fn law_patterns_become_aliases(
    before: Seq<(Seq<char>, Seq<Seq<char>>)>,
    prefix: Seq<char>,
    targets: Seq<Seq<char>>,
)
    ensures
        usable_aliases(Seq::empty()).len() == 0,
        prefix.len() > 0 && prefix != "*"@ && targets.len() > 0 ==> {
            let after = usable_aliases(before.push((prefix + "/*"@, targets)));
            &&& after.len() == usable_aliases(before).len() + 1
            &&& after.drop_last() == usable_aliases(before)
            &&& after.last().0 == prefix
            &&& after.last().1.len() == targets.len()
            &&& forall|k: int|
                0 <= k < targets.len() ==> #[trigger] after.last().1[k] == without_wildcard(
                    targets[k],
                )
        },
        prefix.len() > 0 && prefix != "*"@ && !"/*"@.is_suffix_of(prefix) && targets.len() > 0 ==> {
            let after = usable_aliases(before.push((prefix, targets)));
            &&& after.len() == usable_aliases(before).len() + 1
            &&& after.drop_last() == usable_aliases(before)
            &&& after.last().0 == prefix
            &&& after.last().1.len() == targets.len()
            &&& forall|k: int|
                0 <= k < targets.len() ==> #[trigger] after.last().1[k] == without_wildcard(
                    targets[k],
                )
        },
        usable_aliases(before.push((prefix, Seq::empty()))) == usable_aliases(before),
        usable_aliases(before.push(("*"@, targets))) == usable_aliases(before),
        usable_aliases(before.push(("/*"@, targets))) == usable_aliases(before),
{
    reveal_strlit("*");
    reveal_strlit("/*");
    law_wildcards_are_taken_off(prefix, "*"@);
    law_wildcards_are_taken_off(prefix, prefix);
    law_wildcards_are_taken_off(Seq::empty(), "*"@);
    let plain = before.push((prefix, targets));
    assert(plain.drop_last() =~= before);
    assert(usable_aliases(plain).drop_last() =~= usable_aliases(before) || !is_usable(
        prefix,
        targets,
    ));
    assert(Seq::empty() + "/*"@ =~= "/*"@);
    let row = before.push((prefix + "/*"@, targets));
    assert(row.drop_last() =~= before);
    assert(before.push((prefix, Seq::empty())).drop_last() =~= before);
    assert(before.push(("*"@, targets)).drop_last() =~= before);
    assert(before.push(("/*"@, targets)).drop_last() =~= before);
    assert(usable_aliases(row).drop_last() =~= usable_aliases(before) || !is_usable(
        prefix + "/*"@,
        targets,
    ));
}

/// A target is looked for from the root of the project, with or without a
/// slash in front.
pub proof fn law_targets_are_rooted(target: Seq<char>)
    ensures
        rooted("/"@ + target) == "/"@ + target,
        !(target.len() > 0 && target[0] == '/') ==> rooted(target) == "/"@ + target,
{
    reveal_strlit("/");
    text::lemma_prefix_and_rest("/"@ + target, "/"@);
    if "/"@.is_prefix_of(target) {
        assert(target.subrange(0, 1)[0] == "/"@[0]);
    }
}

/// A file has its imports told exactly if it is there and is text: one edge for
/// each import of its program.
pub proof fn law_text_has_imports(
    setup: ResolverSetup,
    vfs: VfsView,
    path: Seq<char>,
    result: Result<Seq<ImportEdgeView>, FileErrorView>,
)
    requires
        are_file_imports(setup, vfs, path, result),
    ensures
        result is Ok <==> vfs.text_of(path) is Some,
        result matches Err(error) ==> error == (FileErrorView::InvalidUtf8 { path }),
        vfs.text_of(path) matches Some(source) ==> result->Ok_0.len() == imports(
            recorder::parsed_program(source, source_type::source_kind(path)),
        ).len(),
{
}

proof fn lemma_usable_is_kept(entries: Seq<(Seq<char>, Seq<Seq<char>>)>, i: int) -> (j: int)
    requires
        0 <= i < entries.len(),
        is_usable(entries[i].0, entries[i].1),
    ensures
        0 <= j < usable_aliases(entries).len(),
        usable_aliases(entries)[j] == (
            without_wildcard(entries[i].0),
            entries[i].1.map_values(|t: Seq<char>| without_wildcard(t)),
        ),
    decreases entries.len(),
{
    let init = entries.drop_last();
    if i < init.len() {
        assert(init[i] == entries[i]);
        lemma_usable_is_kept(init, i)
    } else {
        usable_aliases(init).len() as int
    }
}

/// Every pattern of a project that ends in `/*` and has a prefix and targets
/// reaches the resolver: as an alias of the prefix for its targets, without
/// their `/*` and from the root of the project.
pub proof fn law_patterns_reach_the_resolver(
    vfs: VfsView,
    path_aliases: StringMap<Vec<String>>,
    prefix: Seq<char>,
)
    requires
        path_aliases.order().contains(prefix + "/*"@),
        prefix.len() > 0,
        prefix != "*"@,
        path_aliases@[prefix + "/*"@]@.len() > 0,
    ensures
        exists|j: int|
            0 <= j < project_setup(vfs, path_aliases).aliases.len() && {
                let alias = #[trigger] project_setup(vfs, path_aliases).aliases[j];
                let targets = path_aliases@[prefix + "/*"@]@;
                &&& alias.0 == prefix
                &&& alias.1.len() == targets.len()
                &&& forall|k: int|
                    0 <= k < targets.len() ==> #[trigger] alias.1[k] == rooted(
                        without_wildcard(targets[k]@),
                    )
            },
{
    let entries = alias_entries(path_aliases);
    let i = path_aliases.order().index_of(prefix + "/*"@);
    let targets = path_aliases@[prefix + "/*"@]@;
    law_wildcards_are_taken_off(prefix, prefix);
    assert(entries[i] == (prefix + "/*"@, text::views(targets)));
    let j = lemma_usable_is_kept(entries, i);
    let alias = project_setup(vfs, path_aliases).aliases[j];
    assert(alias.0 == prefix);
}

/// Imports are resolved from the directory that the file lies in.
pub proof fn law_imports_start_from_the_directory(directory: Seq<char>, name: Seq<char>)
    requires
        directory.len() > 0,
        text::trim_pieces(text::split(directory, '/')) == text::split(directory, '/'),
        name.len() > 0,
        name != "."@,
        !name.contains('/'),
    ensures
        text::is_portable_path(directory + "/"@ + name) ==> directory_of(directory + "/"@ + name)
            == directory,
        text::is_portable_path(name) ==> directory_of(name).len() == 0,
{
    text::law_a_file_lies_in_its_directory(directory, name);
}

/// Every edge is made of something that the resolver may say of its import.
pub proof fn law_edges_answer_their_import(
    setup: ResolverSetup,
    files: Map<Seq<char>, Seq<u8>>,
    path: Seq<char>,
    body: Seq<Node>,
    edges: Seq<ImportEdgeView>,
    i: int,
)
    requires
        are_edges(setup, files, path, body, edges),
        0 <= i < imports(body).len(),
    ensures
        edges.len() == imports(body).len(),
        edges[i].is_re_export == imports(body)[i].is_re_export,
        edges[i].is_type_only == imports(body)[i].is_type_only,
        edges[i].local_bindings == imports(body)[i].local_bindings,
        exists|found: Result<Seq<PathPart<Seq<char>>>, Seq<char>>| #[trigger]
            answers(setup, directory_of(path), imports(body)[i].specifier).contains(found)
                && edges[i].target == import_target(
                files,
                directory_of(path),
                imports(body)[i].specifier,
                found,
            ),
{
    assert(is_edge(setup, files, path, imports(body)[i], edges[i]));
}

/// A batch has the edges of its files, one after another, and their failures.
pub proof fn law_batches_of_imports(
    b: ResolveBatch,
    setup: ResolverSetup,
    vfs: VfsView,
    paths: Seq<Seq<char>>,
    results: Seq<Result<Seq<ImportEdgeView>, FileErrorView>>,
    i: int,
)
    requires
        b.holds(results),
        are_imports(setup, vfs, paths, results),
    ensures
        results.len() == paths.len(),
        0 <= i < paths.len() ==> are_file_imports(setup, vfs, paths[i], results[i]),
        edges_view(b.edges@) == batch::collected(results),
        batch::errors_view(b.failures@) == batch::failures(results),
{
}

} // verus!
