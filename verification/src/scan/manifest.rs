//! What `package.json` and `tsconfig.json` say.
use super::json;
use super::json::Json;
use super::json::JsonView;
use crate::string_map::MapView;
use crate::string_map::StringMap;
use crate::text;
use crate::vfs::Vfs;
use crate::vfs::VfsView;
use vstd::prelude::*;
use vstd::string::*;

verus! {

/// What a `package.json` says.
#[derive(Clone, Default)]
pub struct PackageJsonData {
    pub scripts: StringMap<String>,
    pub dependencies: Vec<String>,
    pub dev_dependencies: Vec<String>,
    pub main_entry: Option<String>,
}

/// A `PackageJsonData` by its characters.
#[verifier::ext_equal]
pub struct PackageJsonView {
    pub scripts: MapView<Seq<char>>,
    pub dependencies: Seq<Seq<char>>,
    pub dev_dependencies: Seq<Seq<char>>,
    pub main_entry: Option<Seq<char>>,
}

/// Texts by name, by their characters.
pub open spec fn texts_view(map: StringMap<String>) -> MapView<Seq<char>> {
    MapView { map: map@.map_values(|v: String| v@), order: map.order() }
}

/// Lists of texts by name, by their characters.
pub open spec fn lists_view(map: StringMap<Vec<String>>) -> MapView<Seq<Seq<char>>> {
    MapView { map: map@.map_values(|v: Vec<String>| text::views(v@)), order: map.order() }
}

impl View for PackageJsonData {
    type V = PackageJsonView;

    open spec fn view(&self) -> PackageJsonView {
        PackageJsonView {
            scripts: texts_view(self.scripts),
            dependencies: text::views(self.dependencies@),
            dev_dependencies: text::views(self.dev_dependencies@),
            main_entry: text::opt_view(self.main_entry),
        }
    }
}

/// What a `tsconfig.json` says.
#[derive(Clone, Default)]
pub struct TsConfigData {
    pub strict: bool,
    pub target: Option<String>,
    pub path_aliases: StringMap<Vec<String>>,
}

/// A `TsConfigData` by its characters.
#[verifier::ext_equal]
pub struct TsConfigView {
    pub strict: bool,
    pub target: Option<Seq<char>>,
    pub path_aliases: MapView<Seq<Seq<char>>>,
}

impl View for TsConfigData {
    type V = TsConfigView;

    open spec fn view(&self) -> TsConfigView {
        TsConfigView {
            strict: self.strict,
            target: text::opt_view(self.target),
            path_aliases: lists_view(self.path_aliases),
        }
    }
}

// ---- package.json ----

/// The names of the members of an object; none of anything else.
pub open spec fn key_names(value: Option<JsonView>) -> Seq<Seq<char>> {
    match value {
        Some(JsonView::Object(members)) => members.map_values(|m: (Seq<char>, JsonView)| m.0),
        _ => Seq::empty(),
    }
}

fn object_keys(value: Option<&Json>) -> (keys: Vec<String>)
    ensures
        text::views(keys@) == key_names(
            match value {
                Some(v) => Some(v@),
                None => None,
            },
        ),
{
    let mut keys: Vec<String> = Vec::new();
    assert(text::views(keys@) =~= Seq::empty());
    if let Some(Json::Object(members)) = value {
        let ghost all = json::members_view(members@);
        proof {
            json::lemma_members_view(members@);
        }
        for i in 0..members.len()
            invariant
                all.len() == members@.len(),
                forall|k: int|
                    0 <= k < members@.len() ==> #[trigger] all[k] == (
                        members@[k].0@,
                        members@[k].1@,
                    ),
                text::views(keys@) == all.take(i as int).map_values(
                    |m: (Seq<char>, JsonView)| m.0,
                ),
        {
            let ghost before = text::views(keys@);
            assert(all[i as int] == (members@[i as int].0@, members@[i as int].1@));
            keys.push(members[i].0.clone());
            assert(text::views(keys@) =~= before.push(all[i as int].0));
            assert(text::views(keys@) =~= all.take(i + 1).map_values(
                |m: (Seq<char>, JsonView)| m.0,
            ));
        }
        assert(all.take(members@.len() as int) =~= all);
    }
    keys
}

/// The scripts among the members of an object: those whose value is a text.
pub open spec fn script_table(members: Seq<(Seq<char>, JsonView)>) -> MapView<Seq<char>>
    decreases members.len(),
{
    if members.len() == 0 {
        MapView::empty()
    } else {
        let before = script_table(members.drop_last());
        match members.last().1.text() {
            Some(command) => before.with(members.last().0, command),
            None => before,
        }
    }
}

/// The scripts that a `package.json` declares.
pub open spec fn scripts_of(document: JsonView) -> MapView<Seq<char>> {
    match document.at("scripts"@) {
        Some(JsonView::Object(members)) => script_table(members),
        _ => MapView::empty(),
    }
}

fn read_scripts(document: &Json) -> (scripts: StringMap<String>)
    ensures
        texts_view(scripts) == scripts_of(document@),
{
    let mut scripts: StringMap<String> = StringMap::new();
    assert(texts_view(scripts) =~= MapView::<Seq<char>>::empty());
    if let Some(Json::Object(members)) = document.get("scripts") {
        let ghost all = json::members_view(members@);
        proof {
            json::lemma_members_view(members@);
            assert(all.take(0) =~= Seq::empty());
        }
        for i in 0..members.len()
            invariant
                all.len() == members@.len(),
                forall|k: int|
                    0 <= k < members@.len() ==> #[trigger] all[k] == (
                        members@[k].0@,
                        members@[k].1@,
                    ),
                texts_view(scripts) == script_table(all.take(i as int)),
        {
            let ghost before = texts_view(scripts);
            assert(all.take(i + 1).drop_last() =~= all.take(i as int));
            assert(all[i as int] == (members@[i as int].0@, members@[i as int].1@));
            if let Some(command) = members[i].1.as_str() {
                assert(before.map.dom() =~= scripts@.dom());
                scripts.insert(members[i].0.clone(), command.to_string());
                assert(texts_view(scripts) =~= before.with(members@[i as int].0@, command@));
            }
        }
        assert(all.take(members@.len() as int) =~= all);
    }
    scripts
}

/// Where a package begins: its `main`, else its `module`.
pub open spec fn main_entry_of(document: JsonView) -> Option<Seq<char>> {
    match json::text_at(document, "main"@) {
        Some(entry) => Some(entry),
        None => json::text_at(document, "module"@),
    }
}

/// What the document of a `package.json` says.
pub open spec fn package_data(document: JsonView) -> PackageJsonView {
    PackageJsonView {
        scripts: scripts_of(document),
        dependencies: key_names(document.at("dependencies"@)),
        dev_dependencies: key_names(document.at("devDependencies"@)),
        main_entry: main_entry_of(document),
    }
}

/// Whether the document of a `package.json` declares workspaces.
pub open spec fn declares_workspaces(document: JsonView) -> bool {
    document.at("workspaces"@) is Some
}

/// What the document of a `package.json` says, and whether it declares
/// workspaces.
pub fn read_package_json(document: &Json) -> (found: (PackageJsonData, bool))
    ensures
        found.0@ == package_data(document@),
        found.1 == declares_workspaces(document@),
{
    let declares_workspaces = document.get("workspaces").is_some();
    let dependencies = object_keys(document.get("dependencies"));
    let dev_dependencies = object_keys(document.get("devDependencies"));
    let scripts = read_scripts(document);
    let main_entry: Option<String> = match document.get_str("main") {
        Some(entry) => Some(entry.to_string()),
        None => match document.get_str("module") {
            Some(entry) => Some(entry.to_string()),
            None => None,
        },
    };
    (PackageJsonData { scripts, dependencies, dev_dependencies, main_entry }, declares_workspaces)
}

/// What the text of a `package.json` says, and whether it declares
/// workspaces; nothing if it is no JSON.
pub open spec fn package_json(text: Seq<char>) -> Option<(PackageJsonView, bool)> {
    match json::json_document(text) {
        Some(document) => Some((package_data(document), declares_workspaces(document))),
        None => None,
    }
}

/// What the text of a `package.json` says, and whether it declares
/// workspaces.
pub fn parse_package_json(text: &str) -> (found: Option<(PackageJsonData, bool)>)
    ensures
        match found {
            Some((data, workspaces)) => package_json(text@) == Some((data@, workspaces)),
            None => package_json(text@) is None,
        },
{
    match json::parse_json(text) {
        Some(document) => Some(read_package_json(&document)),
        None => None,
    }
}

/// The name that the text of a `package.json` gives the package.
pub open spec fn package_name(text: Seq<char>) -> Option<Seq<char>> {
    match json::json_document(text) {
        Some(document) => json::text_at(document, "name"@),
        None => None,
    }
}

/// The name that the text of a `package.json` gives the package.
pub fn parse_package_name(text: &str) -> (name: Option<String>)
    ensures
        text::opt_view(name) == package_name(text@),
{
    match json::parse_json(text) {
        Some(document) => match document.get_str("name") {
            Some(name) => Some(name.to_string()),
            None => None,
        },
        None => None,
    }
}

// ---- tsconfig.json ----

/// What a `tsconfig.json` says itself, without what it extends.
pub struct OwnTsConfigFields {
    pub strict: Option<bool>,
    pub target: Option<String>,
    pub path_aliases: StringMap<Vec<String>>,
}

/// An `OwnTsConfigFields` by its characters.
#[verifier::ext_equal]
pub struct OwnFieldsView {
    pub strict: Option<bool>,
    pub target: Option<Seq<char>>,
    pub path_aliases: MapView<Seq<Seq<char>>>,
}

impl View for OwnTsConfigFields {
    type V = OwnFieldsView;

    open spec fn view(&self) -> OwnFieldsView {
        OwnFieldsView {
            strict: self.strict,
            target: text::opt_view(self.target),
            path_aliases: lists_view(self.path_aliases),
        }
    }
}

/// The texts among the items of an array.
pub open spec fn texts_among(items: Seq<JsonView>) -> Seq<Seq<char>>
    decreases items.len(),
{
    if items.len() == 0 {
        Seq::empty()
    } else {
        let before = texts_among(items.drop_last());
        match items.last().text() {
            Some(s) => before.push(s),
            None => before,
        }
    }
}

fn read_texts(items: &Vec<Json>) -> (texts: Vec<String>)
    ensures
        text::views(texts@) == texts_among(json::items_view(items@)),
{
    let ghost all = json::items_view(items@);
    let mut texts: Vec<String> = Vec::new();
    proof {
        json::lemma_items_view(items@);
        assert(text::views(texts@) =~= Seq::empty());
        assert(all.take(0) =~= Seq::empty());
    }
    for i in 0..items.len()
        invariant
            all.len() == items@.len(),
            forall|k: int| 0 <= k < items@.len() ==> #[trigger] all[k] == items@[k]@,
            text::views(texts@) == texts_among(all.take(i as int)),
    {
        let ghost before = text::views(texts@);
        assert(all.take(i + 1).drop_last() =~= all.take(i as int));
        assert(all[i as int] == items@[i as int]@);
        if let Some(s) = items[i].as_str() {
            texts.push(s.to_string());
            assert(text::views(texts@) =~= before.push(s@));
        }
    }
    assert(all.take(items@.len() as int) =~= all);
    texts
}

/// The path aliases among the members of an object: those with a list of
/// targets that holds at least one text.
pub open spec fn alias_table(members: Seq<(Seq<char>, JsonView)>) -> MapView<Seq<Seq<char>>>
    decreases members.len(),
{
    if members.len() == 0 {
        MapView::empty()
    } else {
        let before = alias_table(members.drop_last());
        match members.last().1 {
            JsonView::Array(items) => if texts_among(items).len() > 0 {
                before.with(members.last().0, texts_among(items))
            } else {
                before
            },
            _ => before,
        }
    }
}

fn read_aliases(members: &Vec<(String, Json)>) -> (aliases: StringMap<Vec<String>>)
    ensures
        lists_view(aliases) == alias_table(json::members_view(members@)),
{
    let ghost all = json::members_view(members@);
    let mut aliases: StringMap<Vec<String>> = StringMap::new();
    proof {
        json::lemma_members_view(members@);
        assert(lists_view(aliases) =~= MapView::<Seq<Seq<char>>>::empty());
        assert(all.take(0) =~= Seq::empty());
    }
    for i in 0..members.len()
        invariant
            all.len() == members@.len(),
            forall|k: int|
                0 <= k < members@.len() ==> #[trigger] all[k] == (members@[k].0@, members@[k].1@),
            lists_view(aliases) == alias_table(all.take(i as int)),
    {
        let ghost before = lists_view(aliases);
        assert(all.take(i + 1).drop_last() =~= all.take(i as int));
        assert(all[i as int] == (members@[i as int].0@, members@[i as int].1@));
        if let Json::Array(items) = &members[i].1 {
            let targets = read_texts(items);
            if targets.len() > 0 {
                let ghost shown = text::views(targets@);
                assert(before.map.dom() =~= aliases@.dom());
                aliases.insert(members[i].0.clone(), targets);
                assert(lists_view(aliases) =~= before.with(members@[i as int].0@, shown));
            }
        }
    }
    assert(all.take(members@.len() as int) =~= all);
    aliases
}

/// The compiler options of a `tsconfig.json`.
pub open spec fn compiler_options(document: JsonView) -> Option<JsonView> {
    match document.at("compilerOptions"@) {
        Some(options) => Some(options),
        None => document.at("compiler_options"@),
    }
}

/// The path aliases among compiler options.
pub open spec fn aliases_of(options: JsonView) -> MapView<Seq<Seq<char>>> {
    match options.at("paths"@) {
        Some(JsonView::Object(members)) => alias_table(members),
        _ => MapView::empty(),
    }
}

/// What the document of a `tsconfig.json` says itself.
pub open spec fn own_fields(document: JsonView) -> OwnFieldsView {
    match compiler_options(document) {
        Some(options) => OwnFieldsView {
            strict: match options.at("strict"@) {
                Some(v) => v.truth(),
                None => None,
            },
            target: json::text_at(options, "target"@),
            path_aliases: aliases_of(options),
        },
        None => OwnFieldsView { strict: None, target: None, path_aliases: MapView::empty() },
    }
}

/// What the document of a `tsconfig.json` says itself.
pub fn parse_tsconfig_fields(document: &Json) -> (fields: OwnTsConfigFields)
    ensures
        fields@ == own_fields(document@),
{
    let options: Option<&Json> = match document.get("compilerOptions") {
        Some(options) => Some(options),
        None => document.get("compiler_options"),
    };
    match options {
        Some(options) => {
            let strict: Option<bool> = match options.get("strict") {
                Some(value) => value.as_bool(),
                None => None,
            };
            let target: Option<String> = match options.get_str("target") {
                Some(target) => Some(target.to_string()),
                None => None,
            };
            let path_aliases: StringMap<Vec<String>> = match options.get("paths") {
                Some(Json::Object(members)) => read_aliases(members),
                _ => StringMap::new(),
            };
            assert(lists_view(path_aliases) =~= aliases_of(options@));
            OwnTsConfigFields { strict, target, path_aliases }
        },
        None => {
            let path_aliases: StringMap<Vec<String>> = StringMap::new();
            assert(lists_view(path_aliases) =~= MapView::<Seq<Seq<char>>>::empty());
            OwnTsConfigFields { strict: None, target: None, path_aliases }
        },
    }
}

/// What the text of a `tsconfig.json` says itself; nothing if it is no JSON.
pub open spec fn own_tsconfig(text: Seq<char>) -> Option<TsConfigView> {
    match json::json_document(text) {
        Some(document) => Some(merged(own_fields(document), None)),
        None => None,
    }
}

/// What the text of a `tsconfig.json` says, whatever it extends.
pub fn parse_tsconfig(text: &str) -> (found: Option<TsConfigData>)
    ensures
        match found {
            Some(data) => own_tsconfig(text@) == Some(data@),
            None => own_tsconfig(text@) is None,
        },
{
    match json::parse_json(text) {
        Some(document) => Some(merge_tsconfig(parse_tsconfig_fields(&document), None)),
        None => None,
    }
}

/// A `tsconfig.json` together with what it extends: what it says itself
/// counts, field by field, and what it leaves open it takes from there.
pub open spec fn merged(own: OwnFieldsView, base: Option<TsConfigView>) -> TsConfigView {
    TsConfigView {
        strict: match own.strict {
            Some(strict) => strict,
            None => base matches Some(b) && b.strict,
        },
        target: match own.target {
            Some(target) => Some(target),
            None => match base {
                Some(b) => b.target,
                None => None,
            },
        },
        path_aliases: if own.path_aliases.order.len() > 0 {
            own.path_aliases
        } else {
            match base {
                Some(b) => b.path_aliases,
                None => MapView::empty(),
            }
        },
    }
}

/// A base configuration by its characters.
pub open spec fn base_view(base: Option<TsConfigData>) -> Option<TsConfigView> {
    match base {
        Some(b) => Some(b@),
        None => None,
    }
}

/// A `tsconfig.json` together with what it extends.
pub fn merge_tsconfig(own: OwnTsConfigFields, base: Option<TsConfigData>) -> (data: TsConfigData)
    ensures
        data@ == merged(own@, base_view(base)),
{
    let ghost own_shown = own@;
    let own_has_aliases = !own.path_aliases.is_empty();
    match base {
        Some(base) => TsConfigData {
            strict: match own.strict {
                Some(strict) => strict,
                None => base.strict,
            },
            target: match own.target {
                Some(target) => Some(target),
                None => base.target,
            },
            path_aliases: if own_has_aliases {
                own.path_aliases
            } else {
                base.path_aliases
            },
        },
        None => {
            proof {
                if !own_has_aliases {
                    assert(own_shown.path_aliases.map =~= Map::empty());
                    assert(own_shown.path_aliases.order =~= Seq::empty());
                    assert(own_shown.path_aliases =~= MapView::empty());
                }
            }
            TsConfigData {
                strict: match own.strict {
                    Some(strict) => strict,
                    None => false,
                },
                target: own.target,
                path_aliases: own.path_aliases,
            }
        },
    }
}

/// The segments of a path that is walked from the directory with the segments
/// `base`: a name goes down, `..` goes up, and at the top it stays.
pub open spec fn walk_segments(base: Seq<Seq<char>>, parts: Seq<Seq<char>>) -> Seq<Seq<char>>
    decreases parts.len(),
{
    if parts.len() == 0 {
        base
    } else {
        let before = walk_segments(base, parts.drop_last());
        let part = parts.last();
        if part.len() == 0 || part == "."@ {
            before
        } else if part == ".."@ {
            if before.len() == 0 {
                before
            } else {
                before.drop_last()
            }
        } else {
            before.push(part)
        }
    }
}

/// The segments that hold anything.
pub open spec fn nonempty(segments: Seq<Seq<char>>) -> Seq<Seq<char>>
    decreases segments.len(),
{
    if segments.len() == 0 {
        Seq::empty()
    } else if segments.last().len() > 0 {
        nonempty(segments.drop_last()).push(segments.last())
    } else {
        nonempty(segments.drop_last())
    }
}

/// The path that `relative` leads to from the directory `base_dir`.
pub open spec fn joined(base_dir: Seq<char>, relative: Seq<char>) -> Seq<char> {
    text::join(
        walk_segments(nonempty(text::split(base_dir, '/')), text::split(relative, '/')),
        "/"@,
    )
}

/// The path that `relative` leads to from the directory `base_dir`.
pub fn join_relative(base_dir: &str, relative: &str) -> (path: String)
    ensures
        path@ == joined(base_dir@, relative@),
{
    let dirs = text::split_on(base_dir, '/');
    let ghost all_dirs = text::split(base_dir@, '/');
    let mut segments: Vec<String> = Vec::new();
    assert(text::views(segments@) =~= Seq::empty());
    for i in 0..dirs.len()
        invariant
            all_dirs == text::views(dirs@),
            text::views(segments@) == nonempty(all_dirs.take(i as int)),
    {
        let ghost before = text::views(segments@);
        assert(all_dirs.take(i + 1).drop_last() =~= all_dirs.take(i as int));
        if dirs[i].as_str().unicode_len() > 0 {
            segments.push(dirs[i].clone());
            assert(text::views(segments@) =~= before.push(dirs@[i as int]@));
        }
    }
    assert(all_dirs.take(dirs@.len() as int) =~= all_dirs);
    let ghost base = nonempty(all_dirs);
    let parts = text::split_on(relative, '/');
    let ghost all = text::split(relative@, '/');
    for i in 0..parts.len()
        invariant
            all == text::views(parts@),
            text::views(segments@) == walk_segments(base, all.take(i as int)),
    {
        let ghost before = text::views(segments@);
        assert(all.take(i + 1).drop_last() =~= all.take(i as int));
        assert(all.take(i + 1).last() == parts@[i as int]@);
        if parts[i].as_str().unicode_len() == 0 || text::same(&parts[i], ".") {
        } else if text::same(&parts[i], "..") {
            let _last = segments.pop();
            assert(text::views(segments@) =~= walk_segments(base, all.take(i + 1)));
        } else {
            segments.push(parts[i].clone());
            assert(text::views(segments@) =~= before.push(parts@[i as int]@));
        }
    }
    assert(all.take(parts@.len() as int) =~= all);
    text::join_with(&segments, "/")
}

/// The file that the `tsconfig.json` at `path` extends: only one that is
/// named by a relative path is looked for.
pub open spec fn extended_path(path: Seq<char>, document: JsonView) -> Option<Seq<char>> {
    match json::text_at(document, "extends"@) {
        Some(extends) => if "./"@.is_prefix_of(extends) || "../"@.is_prefix_of(extends) {
            let found = joined(text::before_last(path, '/'), extends);
            Some(
                if ".json"@.is_suffix_of(found) {
                    found
                } else {
                    found + ".json"@
                },
            )
        } else {
            None
        },
        None => None,
    }
}

/// The file that the `tsconfig.json` at `path` extends.
pub fn find_extended(path: &str, document: &Json) -> (found: Option<String>)
    ensures
        text::opt_view(found) == extended_path(path@, document@),
{
    match document.get_str("extends") {
        Some(extends) => {
            if text::starts_with(extends, "./") || text::starts_with(extends, "../") {
                let dir = text::rsplit_before(path, '/');
                let mut found = join_relative(&dir, extends);
                if !text::ends_with(&found, ".json") {
                    found.append(".json");
                }
                Some(found)
            } else {
                None
            }
        },
        None => None,
    }
}

/// How many files a chain of `extends` may run through.
pub const MAX_EXTENDS_DEPTH: usize = 8;

/// What the `tsconfig.json` at `path` says, with what it extends; it is the
/// file number `depth` of its chain. A chain that is too long, as one that
/// runs in a circle, ends as if the next file were not there.
pub open spec fn tsconfig_at(vfs: VfsView, path: Seq<char>, depth: nat) -> Option<TsConfigView>
    decreases MAX_EXTENDS_DEPTH - depth,
{
    if depth >= MAX_EXTENDS_DEPTH {
        None
    } else {
        match vfs.text_of(path) {
            None => None,
            Some(source) => match json::json_document(source) {
                None => None,
                Some(document) => {
                    let base = match extended_path(path, document) {
                        Some(next) => tsconfig_at(vfs, next, depth + 1),
                        None => None,
                    };
                    Some(merged(own_fields(document), base))
                },
            },
        }
    }
}

fn resolve_tsconfig(vfs: &Vfs, path: &str, depth: usize) -> (found: Option<TsConfigData>)
    ensures
        base_view(found) == tsconfig_at(vfs@, path@, depth as nat),
    decreases MAX_EXTENDS_DEPTH - depth,
{
    if depth >= MAX_EXTENDS_DEPTH {
        return None;
    }
    let source = match vfs.read_utf8(path) {
        Some(source) => source,
        None => {
            return None;
        },
    };
    let document = match json::parse_json(source) {
        Some(document) => document,
        None => {
            return None;
        },
    };
    let base: Option<TsConfigData> = match find_extended(path, &document) {
        Some(next) => resolve_tsconfig(vfs, &next, depth + 1),
        None => None,
    };
    Some(merge_tsconfig(parse_tsconfig_fields(&document), base))
}

/// What the `tsconfig.json` at `path` says, with what it extends.
pub fn parse_tsconfig_resolved(vfs: &Vfs, path: &str) -> (found: Option<TsConfigData>)
    ensures
        base_view(found) == tsconfig_at(vfs@, path@, 0),
{
    resolve_tsconfig(vfs, path, 0)
}

// ---- laws ----

/// What a `tsconfig.json` says itself is not overruled by what it extends.
pub proof fn law_child_wins(own: OwnFieldsView, base: Option<TsConfigView>)
    ensures
        own.strict matches Some(strict) ==> merged(own, base).strict == strict,
        own.target is Some ==> merged(own, base).target == own.target,
        own.path_aliases.order.len() > 0 ==> merged(own, base).path_aliases == own.path_aliases,
{
}

/// What a `tsconfig.json` leaves open it takes from what it extends.
pub proof fn law_gaps_are_inherited(own: OwnFieldsView, base: TsConfigView)
    ensures
        own.strict is None ==> merged(own, Some(base)).strict == base.strict,
        own.target is None ==> merged(own, Some(base)).target == base.target,
        own.path_aliases.order.len() == 0 ==> merged(own, Some(base)).path_aliases
            == base.path_aliases,
{
}

/// A configuration that extends nothing that can be found says what it says
/// itself.
pub proof fn law_unfound_base_changes_nothing(
    vfs: VfsView,
    path: Seq<char>,
    source: Seq<char>,
    document: JsonView,
)
    requires
        vfs.text_of(path) == Some(source),
        json::json_document(source) == Some(document),
        extended_path(path, document) matches Some(next) ==> tsconfig_at(vfs, next, 1) is None,
    ensures
        tsconfig_at(vfs, path, 0) == own_tsconfig(source),
{
}

/// A name that goes down and the `..` that goes up again lead nowhere.
pub proof fn law_dot_dot_undoes_a_name(base: Seq<Seq<char>>, parts: Seq<Seq<char>>, name: Seq<char>)
    requires
        name.len() > 0,
        name != "."@,
        name != ".."@,
    ensures
        walk_segments(base, parts.push(name).push(".."@)) == walk_segments(base, parts),
{
    reveal_strlit(".");
    reveal_strlit("..");
    let down = parts.push(name);
    assert(down.drop_last() =~= parts);
    assert(down.push(".."@).drop_last() =~= down);
    assert(walk_segments(base, down) == walk_segments(base, parts).push(name));
    assert(".."@.len() == 2);
    assert("."@.len() == 1);
    assert(walk_segments(base, parts).push(name).drop_last() =~= walk_segments(base, parts));
}

/// The dependencies of a package are the names of the members of its
/// `dependencies`, in order, and those for development of its
/// `devDependencies`; what is no object names none.
pub proof fn law_dependencies_are_named(document: JsonView, members: Seq<(Seq<char>, JsonView)>, i: int)
    ensures
        document.at("dependencies"@) == Some(JsonView::Object(members)) ==> {
            &&& package_data(document).dependencies.len() == members.len()
            &&& 0 <= i < members.len() ==> package_data(document).dependencies[i] == members[i].0
        },
        document.at("devDependencies"@) == Some(JsonView::Object(members)) ==> {
            &&& package_data(document).dev_dependencies.len() == members.len()
            &&& 0 <= i < members.len() ==> package_data(document).dev_dependencies[i]
                == members[i].0
        },
        !(document.at("dependencies"@) matches Some(JsonView::Object(_)))
            ==> package_data(document).dependencies.len() == 0,
        !(document.at("devDependencies"@) matches Some(JsonView::Object(_)))
            ==> package_data(document).dev_dependencies.len() == 0,
{
}

proof fn lemma_scripts(members: Seq<(Seq<char>, JsonView)>, name: Seq<char>)
    ensures
        script_table(members).map.contains_key(name) <==> exists|i: int|
            0 <= i < members.len() && (#[trigger] members[i]).0 == name && members[i].1 is Text,
    decreases members.len(),
{
    if members.len() > 0 {
        let init = members.drop_last();
        lemma_scripts(init, name);
        assert(members.last() == members[members.len() - 1]);
        if script_table(init).map.contains_key(name) {
            let i = choose|i: int|
                0 <= i < init.len() && (#[trigger] init[i]).0 == name && init[i].1 is Text;
            assert(members[i] == init[i]);
        }
        if exists|i: int|
            0 <= i < members.len() && (#[trigger] members[i]).0 == name && members[i].1 is Text {
            let i = choose|i: int|
                0 <= i < members.len() && (#[trigger] members[i]).0 == name && members[i].1 is Text;
            if i < init.len() {
                assert(init[i] == members[i]);
            }
        }
    }
}

proof fn lemma_script_command(members: Seq<(Seq<char>, JsonView)>, i: int)
    requires
        0 <= i < members.len(),
        members[i].1 is Text,
        forall|j: int|
            i < j < members.len() ==> !((#[trigger] members[j]).0 == members[i].0 && members[j].1
                is Text),
    ensures
        script_table(members).map.contains_key(members[i].0),
        JsonView::Text(script_table(members).map[members[i].0]) == members[i].1,
    decreases members.len(),
{
    let init = members.drop_last();
    assert(members.last() == members[members.len() - 1]);
    if i < init.len() {
        assert(init[i] == members[i]);
        assert forall|j: int| i < j < init.len() implies !((#[trigger] init[j]).0 == init[i].0
            && init[j].1 is Text) by {
            assert(init[j] == members[j]);
        }
        lemma_script_command(init, i);
    }
}

/// The scripts of a package are the members of its `scripts` that are texts,
/// each with its text; of several with one name the last counts.
pub proof fn law_scripts_are_texts(
    document: JsonView,
    members: Seq<(Seq<char>, JsonView)>,
    name: Seq<char>,
    i: int,
)
    requires
        document.at("scripts"@) == Some(JsonView::Object(members)),
    ensures
        package_data(document).scripts.map.contains_key(name) <==> exists|k: int|
            0 <= k < members.len() && (#[trigger] members[k]).0 == name && members[k].1 is Text,
        0 <= i < members.len() && members[i].1 is Text && (forall|j: int|
            i < j < members.len() ==> !((#[trigger] members[j]).0 == members[i].0 && members[j].1
                is Text)) ==> JsonView::Text(package_data(document).scripts.map[members[i].0])
            == members[i].1,
{
    lemma_scripts(members, name);
    if 0 <= i < members.len() && members[i].1 is Text && (forall|j: int|
        i < j < members.len() ==> !((#[trigger] members[j]).0 == members[i].0 && members[j].1
            is Text)) {
        lemma_script_command(members, i);
    }
}

/// A package begins at its `main` if that is a text, and else at its `module`;
/// it has workspaces if it says anything of `workspaces`, and its name is what
/// it says of `name`.
pub proof fn law_packages_are_told_by_their_fields(text: Seq<char>, document: JsonView, s: Seq<char>)
    requires
        json::json_document(text) == Some(document),
    ensures
        document.at("main"@) == Some(JsonView::Text(s)) ==> package_data(document).main_entry
            == Some(s),
        !(document.at("main"@) matches Some(JsonView::Text(_))) && document.at("module"@) == Some(
            JsonView::Text(s),
        ) ==> package_data(document).main_entry == Some(s),
        !(document.at("main"@) matches Some(JsonView::Text(_))) && !(document.at("module"@)
            matches Some(JsonView::Text(_))) ==> package_data(document).main_entry is None,
        package_json(text) == Some(
            (package_data(document), document.at("workspaces"@) is Some),
        ),
        document.at("name"@) == Some(JsonView::Text(s)) ==> package_name(text) == Some(s),
        !(document.at("name"@) matches Some(JsonView::Text(_))) ==> package_name(text) is None,
{
}

/// What is no JSON says nothing.
pub proof fn law_what_is_no_json_says_nothing(text: Seq<char>)
    requires
        json::json_document(text) is None,
    ensures
        package_json(text) is None,
        package_name(text) is None,
        own_tsconfig(text) is None,
{
}

/// What a compiler configuration says itself stands in its `compilerOptions`:
/// whether it is strict, which target it has, and its path aliases.
pub proof fn law_options_are_told_by_their_fields(
    document: JsonView,
    options: JsonView,
    s: Seq<char>,
    b: bool,
)
    requires
        document.at("compilerOptions"@) == Some(options) || (document.at("compilerOptions"@) is None
            && document.at("compiler_options"@) == Some(options)),
    ensures
        options.at("strict"@) == Some(JsonView::Bool(b)) <==> own_fields(document).strict == Some(b),
        options.at("target"@) == Some(JsonView::Text(s)) <==> own_fields(document).target == Some(
            s,
        ),
        options.at("paths"@) matches Some(JsonView::Object(members)) ==> own_fields(
            document,
        ).path_aliases == alias_table(members),
        !(options.at("paths"@) matches Some(JsonView::Object(_))) ==> own_fields(
            document,
        ).path_aliases == MapView::<Seq<Seq<char>>>::empty(),
{
}

/// A configuration without options says nothing itself.
pub proof fn law_without_options_nothing_is_said(document: JsonView)
    requires
        document.at("compilerOptions"@) is None,
        document.at("compiler_options"@) is None,
    ensures
        own_fields(document).strict is None,
        own_fields(document).target is None,
        own_fields(document).path_aliases.order.len() == 0,
        merged(own_fields(document), None).strict == false,
        merged(own_fields(document), None).target is None,
        merged(own_fields(document), None).path_aliases.order.len() == 0,
{
}

/// The texts of a list are told in order, and nothing else in it is.
pub proof fn law_texts_of_a_list(before: Seq<JsonView>, item: JsonView)
    ensures
        texts_among(Seq::empty()).len() == 0,
        item matches JsonView::Text(s) ==> texts_among(before.push(item)) == texts_among(
            before,
        ).push(s),
        !(item is Text) ==> texts_among(before.push(item)) == texts_among(before),
{
    assert(before.push(item).drop_last() =~= before);
}

/// Each pattern with a list that holds a text is an alias for the texts in the
/// list; other members are none.
pub proof fn law_aliases_are_lists_of_texts(
    before: Seq<(Seq<char>, JsonView)>,
    pattern: Seq<char>,
    value: JsonView,
)
    ensures
        alias_table(Seq::empty()).order.len() == 0,
        value matches JsonView::Array(items) ==> texts_among(items).len() > 0 ==> {
            let after = alias_table(before.push((pattern, value)));
            &&& after.map == alias_table(before).map.insert(pattern, texts_among(items))
            &&& after.order == if alias_table(before).map.contains_key(pattern) {
                alias_table(before).order
            } else {
                alias_table(before).order.push(pattern)
            }
        },
        !(value matches JsonView::Array(items) && texts_among(items).len() > 0) ==> alias_table(
            before.push((pattern, value)),
        ) == alias_table(before),
{
    assert(before.push((pattern, value)).drop_last() =~= before);
}

/// A configuration extends another only if it names it by a path that begins
/// with `./` or `../`, taken from its own directory, with `.json` at the end
/// whether it is written or not.
pub proof fn law_only_relative_configurations_are_extended(
    path: Seq<char>,
    document: JsonView,
    extends: Seq<char>,
)
    requires
        document.at("extends"@) == Some(JsonView::Text(extends)),
    ensures
        extended_path(path, document) is Some <==> "./"@.is_prefix_of(extends)
            || "../"@.is_prefix_of(extends),
        extended_path(path, document) matches Some(next) ==> {
            let found = joined(text::before_last(path, '/'), extends);
            &&& ".json"@.is_suffix_of(next)
            &&& ".json"@.is_suffix_of(found) ==> next == found
            &&& !".json"@.is_suffix_of(found) ==> next == found + ".json"@
        },
{
    let found = joined(text::before_last(path, '/'), extends);
    let longer = found + ".json"@;
    assert(longer.subrange(longer.len() - ".json"@.len(), longer.len() as int) =~= ".json"@);
}

/// A configuration that extends nothing by name extends nothing.
pub proof fn law_nothing_named_is_extended(path: Seq<char>, document: JsonView)
    requires
        !(document.at("extends"@) matches Some(JsonView::Text(_))),
    ensures
        extended_path(path, document) is None,
{
}

/// A configuration that is text and JSON is found with what it extends, up to
/// the eighth file of a chain; there the chain ends.
pub proof fn law_chains_run_through_eight_files(
    vfs: VfsView,
    path: Seq<char>,
    source: Seq<char>,
    document: JsonView,
    depth: nat,
)
    requires
        vfs.text_of(path) == Some(source),
        json::json_document(source) == Some(document),
    ensures
        depth < 8 <==> tsconfig_at(vfs, path, depth) is Some,
        depth < 8 ==> (extended_path(path, document) is None ==> tsconfig_at(vfs, path, depth)
            == Some(merged(own_fields(document), None))),
        depth < 8 ==> (extended_path(path, document) matches Some(next) ==> tsconfig_at(
            vfs,
            path,
            depth,
        ) == Some(merged(own_fields(document), tsconfig_at(vfs, next, depth + 1)))),
{
}

/// What is no text or no JSON is no configuration.
pub proof fn law_unreadable_configurations_are_none(vfs: VfsView, path: Seq<char>, depth: nat)
    requires
        vfs.text_of(path) matches Some(source) ==> json::json_document(source) is None,
    ensures
        tsconfig_at(vfs, path, depth) is None,
{
}

proof fn lemma_walk_concat(base: Seq<Seq<char>>, a: Seq<Seq<char>>, b: Seq<Seq<char>>)
    ensures
        walk_segments(base, a + b) == walk_segments(walk_segments(base, a), b),
    decreases b.len(),
{
    if b.len() == 0 {
        assert(a + b =~= a);
    } else {
        lemma_walk_concat(base, a, b.drop_last());
        assert((a + b).drop_last() =~= a + b.drop_last());
    }
}

/// The names of a path that is joined to a directory: those of the directory,
/// one less for each `..`, and those of the path. A dot makes no difference.
pub proof fn law_paths_are_joined_to_directories(
    directory: Seq<char>,
    above: Seq<char>,
    name: Seq<char>,
    rest: Seq<char>,
)
    requires
        name.len() > 0,
        !name.contains('/'),
        name != "."@,
        name != ".."@,
    ensures
        joined(directory, "./"@ + rest) == joined(directory, rest),
        joined(above + "/"@ + name, "../"@ + rest) == joined(above, rest),
        joined(Seq::empty(), "../"@ + rest) == joined(Seq::empty(), rest),
        joined(directory, name + "/"@ + rest) == joined(directory + "/"@ + name, rest),
        joined(Seq::empty(), name) == name,
{
    let none = Seq::<char>::empty();
    reveal_strlit("/");
    reveal_strlit(".");
    reveal_strlit("..");
    reveal_strlit("./");
    reveal_strlit("../");
    assert("./"@ + rest =~= "."@.push('/') + rest);
    assert("../"@ + rest =~= ".."@.push('/') + rest);
    assert(above + "/"@ + name =~= above.push('/') + name);
    assert(directory + "/"@ + name =~= directory.push('/') + name);
    assert(name + "/"@ + rest =~= name.push('/') + rest);
    text::law_split_at_separator("."@, rest, '/');
    text::law_split_at_separator(".."@, rest, '/');
    text::law_split_at_separator(name, rest, '/');
    text::lemma_split_step(none, "."@, '/');
    text::lemma_split_step(none, ".."@, '/');
    text::lemma_split_step(above, name, '/');
    text::lemma_split_step(directory, name, '/');
    let parts = text::split(rest, '/');
    let here = nonempty(text::split(directory, '/'));
    let up = nonempty(text::split(above, '/'));
    reveal_with_fuel(walk_segments, 2);
    reveal_with_fuel(nonempty, 2);
    assert(nonempty(text::split(none, '/')) =~= Seq::empty());
    lemma_walk_concat(here, seq!["."@], parts);
    lemma_walk_concat(here, seq![name], parts);
    lemma_walk_concat(up.push(name), seq![".."@], parts);
    lemma_walk_concat(Seq::empty(), seq![".."@], parts);
    assert(seq!["."@].drop_last() =~= Seq::empty());
    assert(seq![".."@].drop_last() =~= Seq::empty());
    assert(seq![name].drop_last() =~= Seq::empty());
    assert(".."@.len() == 2 && "."@.len() == 1);
    assert(walk_segments(here, seq!["."@]) == here);
    assert(walk_segments(here, seq![name]) == here.push(name));
    assert(up.push(name).drop_last() =~= up);
    assert(walk_segments(up.push(name), seq![".."@]) == up);
    assert(walk_segments(Seq::empty(), seq![".."@]) == Seq::<Seq<char>>::empty());
    assert(text::split(above, '/').push(name).drop_last() =~= text::split(above, '/'));
    assert(nonempty(text::split(above, '/').push(name)) =~= up.push(name));
    assert(text::split(directory, '/').push(name).drop_last() =~= text::split(directory, '/'));
    assert(nonempty(text::split(directory, '/').push(name)) =~= here.push(name));
    assert(walk_segments(Seq::empty(), seq![name]) =~= seq![name]);
    assert(text::join(seq![name], "/"@) == name);
}

} // verus!
