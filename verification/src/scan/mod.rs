//! A first look at a project: which files it has, what they are for, and what
//! its manifests say.
pub mod docker_yaml;
pub mod entry_point;
pub mod file_classify;
pub mod json;
pub mod manifest;
pub mod tooling;
pub mod yaml;

pub use docker_yaml::DockerComposeData;
pub use docker_yaml::DockerfileData;
pub use file_classify::FileEntry;
pub use manifest::PackageJsonData;
pub use manifest::TsConfigData;

use crate::text;
use crate::vfs::Vfs;
use crate::vfs::VfsView;
use docker_yaml::DockerComposeServiceView;
use docker_yaml::DockerfileView;
use file_classify::FileEntryView;
use manifest::PackageJsonView;
use manifest::TsConfigView;
use vstd::prelude::*;
use vstd::string::*;

verus! {

/// What a first look at a project tells.
#[derive(Clone)]
pub struct ScanResult {
    pub total_files: usize,
    pub parseable_count: usize,
    pub skipped_count: usize,
    pub package_manager: Option<String>,
    pub lockfile_path: Option<String>,
    pub is_monorepo: bool,
    pub has_package_json: bool,
    pub package_json_path: Option<String>,
    pub npm_package_name: Option<String>,
    pub entry_point_guess: Option<String>,
    pub parseable_files: Vec<FileEntry>,
    pub non_parseable_files: Vec<FileEntry>,
    pub has_docker: bool,
    pub has_ci: bool,
    pub detected_tools: Vec<String>,
    pub package_data: Option<PackageJsonData>,
    pub tsconfig_path: Option<String>,
    pub tsconfig: Option<TsConfigData>,
    pub dockerfile: Option<DockerfileData>,
    pub docker_compose: Option<DockerComposeData>,
    pub pnpm_workspace_packages: Option<Vec<String>>,
}

// ---- the root ----

/// The root that the user names, ending in a slash; without one, all of the
/// project.
pub open spec fn root_of(manual_root: Option<Seq<char>>) -> Seq<char> {
    match manual_root {
        Some(root) => if root.len() > 0 && root.last() == '/' {
            root
        } else {
            root + "/"@
        },
        None => Seq::empty(),
    }
}

/// The root that the user names, ending in a slash.
pub fn normalize_root(manual_root: Option<&str>) -> (root: String)
    ensures
        root@ == root_of(text::opt_str_view(manual_root)),
{
    match manual_root {
        Some(root) => {
            let mut shown = root.to_string();
            proof {
                reveal_strlit("/");
                assert("/"@ =~= seq!['/']);
                if root@.len() > 0 {
                    let tail = root@.subrange(root@.len() - 1, root@.len() as int);
                    assert(tail[0] == root@.last());
                    if root@.last() == '/' {
                        assert(tail =~= "/"@);
                    }
                }
            }
            if !text::ends_with(root, "/") {
                shown.append("/");
            }
            shown
        },
        None => {
            let root = String::new();
            assert(root@ =~= Seq::empty());
            root
        },
    }
}

/// Those of `paths` that lie below the root, in order.
pub open spec fn below(paths: Seq<Seq<char>>, root: Seq<char>) -> Seq<Seq<char>>
    decreases paths.len(),
{
    if paths.len() == 0 {
        Seq::empty()
    } else if root.is_prefix_of(paths.last()) {
        below(paths.drop_last(), root).push(paths.last())
    } else {
        below(paths.drop_last(), root)
    }
}

/// The files of the project that lie below the root.
pub open spec fn visible(vfs: VfsView, root: Seq<char>) -> Seq<Seq<char>> {
    below(vfs.order, root)
}

// ---- what a file tells ----

/// The last of `paths` that tells something, and what it tells.
pub open spec fn last_found<T>(paths: Seq<Seq<char>>, tells: spec_fn(Seq<char>) -> Option<T>) -> Option<
    (Seq<char>, T),
>
    decreases paths.len(),
{
    if paths.len() == 0 {
        None
    } else {
        match tells(paths.last()) {
            Some(found) => Some((paths.last(), found)),
            None => last_found(paths.drop_last(), tells),
        }
    }
}

/// Where something was found.
pub open spec fn place<T>(found: Option<(Seq<char>, T)>) -> Option<Seq<char>> {
    match found {
        Some((path, _)) => Some(path),
        None => None,
    }
}

/// What was found.
pub open spec fn what<T>(found: Option<(Seq<char>, T)>) -> Option<T> {
    match found {
        Some((_, value)) => Some(value),
        None => None,
    }
}

/// The entry for the file at `path`. Its size is told in 32 bits.
pub open spec fn entry_for(vfs: VfsView, path: Seq<char>) -> FileEntryView {
    file_classify::classified(path, vfs.files[path].len() as u32)
}

/// The entries for those of `paths` that can be parsed, or that cannot.
pub open spec fn entries_for(vfs: VfsView, paths: Seq<Seq<char>>, parseable: bool) -> Seq<
    FileEntryView,
>
    decreases paths.len(),
{
    if paths.len() == 0 {
        Seq::empty()
    } else {
        let before = entries_for(vfs, paths.drop_last(), parseable);
        if file_classify::is_parseable(paths.last()) == parseable {
            before.push(entry_for(vfs, paths.last()))
        } else {
            before
        }
    }
}

/// The package manager that a path tells of.
pub open spec fn tells_manager(root: Seq<char>) -> spec_fn(Seq<char>) -> Option<Seq<char>> {
    |path: Seq<char>| tooling::lockfile_manager(path, root)
}

/// That a path is the `package.json` at the root.
pub open spec fn tells_package_path(root: Seq<char>) -> spec_fn(Seq<char>) -> Option<()> {
    |path: Seq<char>|
        if tooling::at_root(path, root, "package.json"@) {
            Some(())
        } else {
            None
        }
}

/// The package name that a path tells of.
pub open spec fn tells_package_name(vfs: VfsView, root: Seq<char>) -> spec_fn(Seq<char>) -> Option<
    Seq<char>,
> {
    |path: Seq<char>|
        if tooling::at_root(path, root, "package.json"@) {
            match vfs.text_of(path) {
                Some(source) => manifest::package_name(source),
                None => None,
            }
        } else {
            None
        }
}

/// What the `package.json` at the root says, told by its path.
pub open spec fn package_at(vfs: VfsView, root: Seq<char>, path: Seq<char>) -> Option<
    (PackageJsonView, bool),
> {
    if tooling::at_root(path, root, "package.json"@) {
        match vfs.text_of(path) {
            Some(source) => manifest::package_json(source),
            None => None,
        }
    } else {
        None
    }
}

/// The package data that a path tells of.
pub open spec fn tells_package(vfs: VfsView, root: Seq<char>) -> spec_fn(Seq<char>) -> Option<
    PackageJsonView,
> {
    |path: Seq<char>|
        match package_at(vfs, root, path) {
            Some((data, _)) => Some(data),
            None => None,
        }
}

/// What the `tsconfig.json` or `jsconfig.json` at the root says, told by its
/// path.
pub open spec fn tsconfig_for(vfs: VfsView, root: Seq<char>, path: Seq<char>) -> Option<
    TsConfigView,
> {
    if tooling::at_root(path, root, "tsconfig.json"@) || tooling::at_root(
        path,
        root,
        "jsconfig.json"@,
    ) {
        manifest::tsconfig_at(vfs, path, 0)
    } else {
        None
    }
}

/// The compiler configuration that a path tells of.
pub open spec fn tells_tsconfig(vfs: VfsView, root: Seq<char>) -> spec_fn(Seq<char>) -> Option<
    TsConfigView,
> {
    |path: Seq<char>| tsconfig_for(vfs, root, path)
}

/// The Dockerfile at the root that a path tells of, if it counts as a file
/// for Docker.
pub open spec fn tells_dockerfile(vfs: VfsView, root: Seq<char>) -> spec_fn(Seq<char>) -> Option<
    DockerfileView,
> {
    |path: Seq<char>|
        if tooling::is_docker(path) && tooling::at_root(path, root, "Dockerfile"@) {
            match vfs.text_of(path) {
                Some(source) => Some(docker_yaml::dockerfile(source)),
                None => None,
            }
        } else {
            None
        }
}

/// The services that a path tells of: those of a compose file that can be
/// read.
pub open spec fn tells_compose(vfs: VfsView, root: Seq<char>) -> spec_fn(Seq<char>) -> Option<
    Seq<DockerComposeServiceView>,
> {
    |path: Seq<char>|
        if !tooling::at_root(path, root, "Dockerfile"@) && "docker-compose"@.is_prefix_of(path) {
            match vfs.text_of(path) {
                Some(source) => docker_yaml::docker_compose(source),
                None => None,
            }
        } else {
            None
        }
}

/// The workspace packages that a path tells of.
pub open spec fn tells_workspace(vfs: VfsView, root: Seq<char>) -> spec_fn(Seq<char>) -> Option<
    Seq<Seq<char>>,
> {
    |path: Seq<char>|
        if tooling::at_root(path, root, "pnpm-workspace.yaml"@) {
            match vfs.text_of(path) {
                Some(source) => docker_yaml::pnpm_packages(source),
                None => None,
            }
        } else {
            None
        }
}

/// Whether a path tells of the tool `tool`: as the file of a monorepo or
/// build tool, by the dependencies of the package, or as a compiler
/// configuration.
pub open spec fn tells_of_tool(vfs: VfsView, root: Seq<char>, path: Seq<char>, tool: Seq<char>) -> bool {
    ||| tooling::monorepo_tool(path, root) == Some(Some(tool))
    ||| tooling::build_tool(path, root) == Some(tool)
    ||| package_at(vfs, root, path) matches Some((data, _)) && tooling::frameworks(
        data.dependencies,
    ).contains(tool)
    ||| tsconfig_for(vfs, root, path) is Some && tool == "TypeScript"@
}

/// Whether a path tells of a monorepo: as the file of a tool, or as a package
/// with workspaces.
pub open spec fn tells_of_monorepo(vfs: VfsView, root: Seq<char>, path: Seq<char>) -> bool {
    ||| tooling::monorepo_tool(path, root) is Some
    ||| package_at(vfs, root, path) matches Some((_, true))
}

/// Whether one of `paths` tells of the tool `tool`.
pub open spec fn tool_among(
    vfs: VfsView,
    root: Seq<char>,
    paths: Seq<Seq<char>>,
    tool: Seq<char>,
) -> bool {
    exists|i: int| 0 <= i < paths.len() && tells_of_tool(vfs, root, #[trigger] paths[i], tool)
}

/// Whether one of `paths` tells of a monorepo.
pub open spec fn monorepo_among(vfs: VfsView, root: Seq<char>, paths: Seq<Seq<char>>) -> bool {
    exists|i: int| 0 <= i < paths.len() && tells_of_monorepo(vfs, root, #[trigger] paths[i])
}

/// Whether one of `paths` is for Docker.
pub open spec fn docker_among(paths: Seq<Seq<char>>) -> bool {
    exists|i: int| 0 <= i < paths.len() && tooling::is_docker(#[trigger] paths[i])
}

/// Whether one of `paths` is for continuous integration.
pub open spec fn ci_among(paths: Seq<Seq<char>>) -> bool {
    exists|i: int| 0 <= i < paths.len() && tooling::is_ci(#[trigger] paths[i])
}

// ---- optional data by its characters ----

pub open spec fn package_view(data: Option<PackageJsonData>) -> Option<PackageJsonView> {
    match data {
        Some(d) => Some(d@),
        None => None,
    }
}

pub open spec fn dockerfile_view(data: Option<DockerfileData>) -> Option<DockerfileView> {
    match data {
        Some(d) => Some(d@),
        None => None,
    }
}

// ---- what has been noted so far ----

/// The files, as they are listed.
struct FileNotes {
    parseable: Vec<FileEntry>,
    other: Vec<FileEntry>,
}

impl FileNotes {
    spec fn holds(&self, vfs: VfsView, seen: Seq<Seq<char>>) -> bool {
        &&& file_classify::entries_view(self.parseable@) == entries_for(vfs, seen, true)
        &&& file_classify::entries_view(self.other@) == entries_for(vfs, seen, false)
        &&& self.parseable@.len() + self.other@.len() == seen.len()
    }

    fn note(&mut self, vfs: &Vfs, path: &str, seen: Ghost<Seq<Seq<char>>>)
        requires
            old(self).holds(vfs@, seen@),
            vfs@.files.contains_key(path@),
        ensures
            final(self).holds(vfs@, seen@.push(path@)),
    {
        let size: usize = match vfs.get_size(path) {
            Some(size) => size,
            None => 0,
        };
        #[verifier::truncate]
        let told: u32 = size as u32;
        let entry = file_classify::classify_file(path, told);
        let ghost shown = entry@;
        let ghost more = seen@.push(path@);
        assert(more.drop_last() =~= seen@);
        if entry.is_parseable {
            let ghost before = file_classify::entries_view(self.parseable@);
            self.parseable.push(entry);
            assert(file_classify::entries_view(self.parseable@) =~= before.push(shown));
        } else {
            let ghost before = file_classify::entries_view(self.other@);
            self.other.push(entry);
            assert(file_classify::entries_view(self.other@) =~= before.push(shown));
        }
    }
}

/// The lockfile.
struct LockNotes {
    path: Option<String>,
    manager: Option<String>,
}

impl LockNotes {
    spec fn holds(&self, root: Seq<char>, seen: Seq<Seq<char>>) -> bool {
        &&& text::opt_view(self.path) == place(last_found(seen, tells_manager(root)))
        &&& text::opt_view(self.manager) == what(last_found(seen, tells_manager(root)))
    }

    fn note(&mut self, root: &str, path: &str, seen: Ghost<Seq<Seq<char>>>)
        requires
            old(self).holds(root@, seen@),
        ensures
            final(self).holds(root@, seen@.push(path@)),
    {
        assert(seen@.push(path@).drop_last() =~= seen@);
        if let Some(lockfile) = tooling::match_lockfile(path, root) {
            self.path = Some(path.to_string());
            self.manager = Some(lockfile.package_manager.to_string());
        }
    }
}

/// Whether there is anything for Docker or continuous integration, and what
/// the files for Docker say.
struct DockerNotes {
    has_docker: bool,
    has_ci: bool,
    dockerfile: Option<DockerfileData>,
    compose: Option<DockerComposeData>,
}

impl DockerNotes {
    spec fn holds(&self, vfs: VfsView, root: Seq<char>, seen: Seq<Seq<char>>) -> bool {
        &&& self.has_docker == docker_among(seen)
        &&& self.has_ci == ci_among(seen)
        &&& dockerfile_view(self.dockerfile) == what(last_found(seen, tells_dockerfile(vfs, root)))
        &&& docker_yaml::opt_compose(self.compose) == what(
            last_found(seen, tells_compose(vfs, root)),
        )
    }

    fn note(&mut self, vfs: &Vfs, root: &str, path: &str, seen: Ghost<Seq<Seq<char>>>)
        requires
            old(self).holds(vfs@, root@, seen@),
        ensures
            final(self).holds(vfs@, root@, seen@.push(path@)),
    {
        let ghost more = seen@.push(path@);
        proof {
            assert(more.drop_last() =~= seen@);
            assert(more[seen@.len() as int] == path@);
            assert forall|i: int| 0 <= i < seen@.len() implies more[i] == seen@[i] by {}
            if docker_among(seen@) {
                let i = choose|i: int|
                    0 <= i < seen@.len() && tooling::is_docker(#[trigger] seen@[i]);
                assert(tooling::is_docker(more[i]));
            }
            if ci_among(seen@) {
                let i = choose|i: int| 0 <= i < seen@.len() && tooling::is_ci(#[trigger] seen@[i]);
                assert(tooling::is_ci(more[i]));
            }
        }
        if tooling::is_docker_file(path) {
            self.has_docker = true;
            if let Some(source) = vfs.read_utf8(path) {
                if tooling::is_root_file(path, root, "Dockerfile") {
                    self.dockerfile = Some(docker_yaml::parse_dockerfile(source));
                } else if text::starts_with(path, "docker-compose") {
                    if let Some(found) = docker_yaml::parse_docker_compose(source) {
                        self.compose = Some(found);
                    }
                }
            }
        }
        if tooling::is_ci_file(path) {
            self.has_ci = true;
        }
        proof {
            assert(self.has_docker == docker_among(more)) by {
                if docker_among(more) {
                    let i = choose|i: int|
                        0 <= i < more.len() && tooling::is_docker(#[trigger] more[i]);
                    if i < seen@.len() {
                        assert(tooling::is_docker(seen@[i]));
                    }
                }
            }
            assert(self.has_ci == ci_among(more)) by {
                if ci_among(more) {
                    let i = choose|i: int| 0 <= i < more.len() && tooling::is_ci(#[trigger] more[i]);
                    if i < seen@.len() {
                        assert(tooling::is_ci(seen@[i]));
                    }
                }
            }
        }
    }
}

/// What the `package.json` at the root says.
struct PackageNotes {
    path: Option<String>,
    name: Option<String>,
    data: Option<PackageJsonData>,
}

impl PackageNotes {
    spec fn holds(&self, vfs: VfsView, root: Seq<char>, seen: Seq<Seq<char>>) -> bool {
        &&& text::opt_view(self.path) == place(last_found(seen, tells_package_path(root)))
        &&& text::opt_view(self.name) == what(last_found(seen, tells_package_name(vfs, root)))
        &&& package_view(self.data) == what(last_found(seen, tells_package(vfs, root)))
    }

    fn note(
        &mut self,
        vfs: &Vfs,
        root: &str,
        path: &str,
        package: Option<PackageJsonData>,
        seen: Ghost<Seq<Seq<char>>>,
    )
        requires
            old(self).holds(vfs@, root@, seen@),
            package_view(package) == (tells_package(vfs@, root@))(path@),
        ensures
            final(self).holds(vfs@, root@, seen@.push(path@)),
    {
        assert(seen@.push(path@).drop_last() =~= seen@);
        if tooling::is_root_file(path, root, "package.json") {
            self.path = Some(path.to_string());
            if let Some(source) = vfs.read_utf8(path) {
                if let Some(name) = manifest::parse_package_name(source) {
                    self.name = Some(name);
                }
            }
        }
        if package.is_some() {
            self.data = package;
        }
    }
}

/// What the compiler configuration at the root says.
struct TsNotes {
    path: Option<String>,
    data: Option<TsConfigData>,
}

impl TsNotes {
    spec fn holds(&self, vfs: VfsView, root: Seq<char>, seen: Seq<Seq<char>>) -> bool {
        &&& text::opt_view(self.path) == place(last_found(seen, tells_tsconfig(vfs, root)))
        &&& manifest::base_view(self.data) == what(last_found(seen, tells_tsconfig(vfs, root)))
    }

    fn note(
        &mut self,
        path: &str,
        tsconfig: Option<TsConfigData>,
        vfs: Ghost<VfsView>,
        root: Ghost<Seq<char>>,
        seen: Ghost<Seq<Seq<char>>>,
    )
        requires
            old(self).holds(vfs@, root@, seen@),
            manifest::base_view(tsconfig) == tsconfig_for(vfs@, root@, path@),
        ensures
            final(self).holds(vfs@, root@, seen@.push(path@)),
    {
        assert(seen@.push(path@).drop_last() =~= seen@);
        if tsconfig.is_some() {
            self.path = Some(path.to_string());
            self.data = tsconfig;
        }
    }
}

/// The tools, and whether the project is a monorepo.
struct ToolNotes {
    names: Vec<String>,
    is_monorepo: bool,
}

impl ToolNotes {
    spec fn holds(&self, vfs: VfsView, root: Seq<char>, seen: Seq<Seq<char>>) -> bool {
        &&& forall|t: Seq<char>| #[trigger]
            text::views(self.names@).contains(t) <==> tool_among(vfs, root, seen, t)
        &&& self.is_monorepo == monorepo_among(vfs, root, seen)
    }

    fn push(&mut self, name: &str)
        ensures
            final(self).is_monorepo == old(self).is_monorepo,
            forall|t: Seq<char>| #[trigger]
                text::views(final(self).names@).contains(t) <==> text::views(
                    old(self).names@,
                ).contains(t) || t == name@,
    {
        let ghost before = text::views(self.names@);
        self.names.push(name.to_string());
        proof {
            let after = text::views(self.names@);
            assert(after =~= before.push(name@));
            assert forall|t: Seq<char>| #[trigger]
                after.contains(t) <==> before.contains(t) || t == name@ by {
                if before.contains(t) {
                    assert(after[before.index_of(t)] == t);
                }
                if t == name@ {
                    assert(after[before.len() as int] == t);
                }
                if after.contains(t) && t != name@ {
                    assert(before[after.index_of(t)] == t);
                }
            }
        }
    }

    fn push_all(&mut self, names: &Vec<&'static str>)
        ensures
            final(self).is_monorepo == old(self).is_monorepo,
            forall|t: Seq<char>| #[trigger]
                text::views(final(self).names@).contains(t) <==> text::views(
                    old(self).names@,
                ).contains(t) || text::str_views(names@).contains(t),
    {
        let ghost all = text::str_views(names@);
        for i in 0..names.len()
            invariant
                all == text::str_views(names@),
                self.is_monorepo == old(self).is_monorepo,
                forall|t: Seq<char>| #[trigger]
                    text::views(self.names@).contains(t) <==> text::views(
                        old(self).names@,
                    ).contains(t) || all.take(i as int).contains(t),
        {
            proof {
                let seen = all.take(i as int);
                let more = all.take(i + 1);
                assert(more =~= seen.push(names@[i as int]@));
                assert forall|t: Seq<char>| #[trigger]
                    more.contains(t) <==> seen.contains(t) || t == names@[i as int]@ by {
                    if seen.contains(t) {
                        assert(more[seen.index_of(t)] == t);
                    }
                    if t == names@[i as int]@ {
                        assert(more[i as int] == t);
                    }
                    if more.contains(t) && t != names@[i as int]@ {
                        assert(seen[more.index_of(t)] == t);
                    }
                }
            }
            self.push(names[i]);
        }
        assert(all.take(names@.len() as int) =~= all);
    }

    fn note(
        &mut self,
        root: &str,
        path: &str,
        package: &Option<(PackageJsonData, bool)>,
        has_tsconfig: bool,
        vfs: Ghost<VfsView>,
        seen: Ghost<Seq<Seq<char>>>,
    )
        requires
            old(self).holds(vfs@, root@, seen@),
            match package {
                Some((data, workspaces)) => package_at(vfs@, root@, path@) == Some(
                    (data@, *workspaces),
                ),
                None => package_at(vfs@, root@, path@) is None,
            },
            has_tsconfig == (tsconfig_for(vfs@, root@, path@) is Some),
        ensures
            final(self).holds(vfs@, root@, seen@.push(path@)),
    {
        let ghost start = text::views(self.names@);
        if let Some(found) = tooling::match_monorepo_tool(path, root) {
            self.is_monorepo = true;
            if let Some(name) = found.tool_name {
                self.push(name);
            }
        }
        if let Some(name) = tooling::match_build_tool_config(path, root) {
            self.push(name);
        }
        if let Some((data, workspaces)) = package {
            if *workspaces {
                self.is_monorepo = true;
            }
            let names = tooling::frameworks_from_dependencies(&data.dependencies);
            self.push_all(&names);
        }
        if has_tsconfig {
            self.push("TypeScript");
        }
        proof {
            let more = seen@.push(path@);
            let names = text::views(self.names@);
            assert(more[seen@.len() as int] == path@);
            assert forall|i: int| 0 <= i < seen@.len() implies more[i] == seen@[i] by {}
            assert forall|t: Seq<char>| #[trigger]
                names.contains(t) <==> tool_among(vfs@, root@, more, t) by {
                assert(names.contains(t) <==> start.contains(t) || tells_of_tool(
                    vfs@,
                    root@,
                    path@,
                    t,
                ));
                if tool_among(vfs@, root@, seen@, t) {
                    let i = choose|i: int|
                        0 <= i < seen@.len() && tells_of_tool(
                            vfs@,
                            root@,
                            #[trigger] seen@[i],
                            t,
                        );
                    assert(tells_of_tool(vfs@, root@, more[i], t));
                }
                if tool_among(vfs@, root@, more, t) {
                    let i = choose|i: int|
                        0 <= i < more.len() && tells_of_tool(vfs@, root@, #[trigger] more[i], t);
                    if i < seen@.len() {
                        assert(tells_of_tool(vfs@, root@, seen@[i], t));
                    }
                }
            }
            if monorepo_among(vfs@, root@, seen@) {
                let i = choose|i: int|
                    0 <= i < seen@.len() && tells_of_monorepo(vfs@, root@, #[trigger] seen@[i]);
                assert(tells_of_monorepo(vfs@, root@, more[i]));
            }
            if monorepo_among(vfs@, root@, more) {
                let i = choose|i: int|
                    0 <= i < more.len() && tells_of_monorepo(vfs@, root@, #[trigger] more[i]);
                if i < seen@.len() {
                    assert(tells_of_monorepo(vfs@, root@, seen@[i]));
                }
            }
            assert(self.is_monorepo == monorepo_among(vfs@, root@, more));
        }
    }
}

/// The packages of the pnpm workspace at the root.
fn note_workspace(
    noted: Option<Vec<String>>,
    vfs: &Vfs,
    root: &str,
    path: &str,
    seen: Ghost<Seq<Seq<char>>>,
) -> (r: Option<Vec<String>>)
    requires
        docker_yaml::opt_views(noted) == what(last_found(seen@, tells_workspace(vfs@, root@))),
    ensures
        docker_yaml::opt_views(r) == what(
            last_found(seen@.push(path@), tells_workspace(vfs@, root@)),
        ),
{
    assert(seen@.push(path@).drop_last() =~= seen@);
    if tooling::is_root_file(path, root, "pnpm-workspace.yaml") {
        if let Some(source) = vfs.read_utf8(path) {
            if let Some(found) = docker_yaml::parse_pnpm_workspace_packages(source) {
                return Some(found);
            }
        }
    }
    noted
}

/// What a first look at the files of a project below a root tells.
pub open spec fn tells(
    result: ScanResult,
    vfs: VfsView,
    root: Seq<char>,
    manual_entry_point: Option<Seq<char>>,
) -> bool {
    let paths = visible(vfs, root);
    &&& file_classify::entries_view(result.parseable_files@) == entries_for(vfs, paths, true)
    &&& file_classify::entries_view(result.non_parseable_files@) == entries_for(vfs, paths, false)
    &&& result.total_files == paths.len()
    &&& result.parseable_count == result.parseable_files@.len()
    &&& result.skipped_count == result.non_parseable_files@.len()
    &&& text::opt_view(result.lockfile_path) == place(last_found(paths, tells_manager(root)))
    &&& text::opt_view(result.package_manager) == what(last_found(paths, tells_manager(root)))
    &&& result.is_monorepo == monorepo_among(vfs, root, paths)
    &&& text::opt_view(result.package_json_path) == place(
        last_found(paths, tells_package_path(root)),
    )
    &&& result.has_package_json == (result.package_json_path is Some)
    &&& text::opt_view(result.npm_package_name) == what(
        last_found(paths, tells_package_name(vfs, root)),
    )
    &&& package_view(result.package_data) == what(last_found(paths, tells_package(vfs, root)))
    &&& text::opt_view(result.entry_point_guess) == entry_point::entry_point(
        vfs,
        root,
        manual_entry_point,
    )
    &&& result.has_docker == docker_among(paths)
    &&& result.has_ci == ci_among(paths)
    &&& text::is_strictly_sorted(text::views(result.detected_tools@))
    &&& forall|t: Seq<char>| #[trigger]
        text::views(result.detected_tools@).contains(t) <==> tool_among(vfs, root, paths, t)
    &&& text::opt_view(result.tsconfig_path) == place(last_found(paths, tells_tsconfig(vfs, root)))
    &&& manifest::base_view(result.tsconfig) == what(last_found(paths, tells_tsconfig(vfs, root)))
    &&& dockerfile_view(result.dockerfile) == what(last_found(paths, tells_dockerfile(vfs, root)))
    &&& docker_yaml::opt_compose(result.docker_compose) == what(
        last_found(paths, tells_compose(vfs, root)),
    )
    &&& docker_yaml::opt_views(result.pnpm_workspace_packages) == what(
        last_found(paths, tells_workspace(vfs, root)),
    )
}

/// What a first look at a project tells, below the root that the user names.
pub fn scan(vfs: &Vfs, manual_root: Option<&str>) -> (result: ScanResult)
    ensures
        tells(result, vfs@, root_of(text::opt_str_view(manual_root)), None),
{
    scan_with_entry_point(vfs, manual_root, None)
}

/// What a first look at a project tells, below the root and with the entry
/// point that the user names.
pub fn scan_with_entry_point(
    vfs: &Vfs,
    manual_root: Option<&str>,
    manual_entry_point: Option<&str>,
) -> (result: ScanResult)
    ensures
        tells(
            result,
            vfs@,
            root_of(text::opt_str_view(manual_root)),
            text::opt_str_view(manual_entry_point),
        ),
{
    let root = normalize_root(manual_root);
    let mut files = FileNotes { parseable: Vec::new(), other: Vec::new() };
    let mut lock = LockNotes { path: None, manager: None };
    let mut docker = DockerNotes {
        has_docker: false,
        has_ci: false,
        dockerfile: None,
        compose: None,
    };
    let mut packages = PackageNotes { path: None, name: None, data: None };
    let mut ts = TsNotes { path: None, data: None };
    let mut tools = ToolNotes { names: Vec::new(), is_monorepo: false };
    let mut workspace: Option<Vec<String>> = None;
    let paths = vfs.paths();
    let ghost order = vfs@.order;
    let ghost mut seen: Seq<Seq<char>> = Seq::empty();
    assert(file_classify::entries_view(files.parseable@) =~= Seq::empty());
    assert(file_classify::entries_view(files.other@) =~= Seq::empty());
    assert(order.take(0) =~= Seq::empty());
    for i in 0..paths.len()
        invariant
            order == vfs@.order,
            text::str_views(paths@) == order,
            forall|p: Seq<char>| #[trigger] order.contains(p) <==> vfs@.files.contains_key(p),
            seen == below(order.take(i as int), root@),
            seen.len() <= i,
            files.holds(vfs@, seen),
            lock.holds(root@, seen),
            docker.holds(vfs@, root@, seen),
            packages.holds(vfs@, root@, seen),
            ts.holds(vfs@, root@, seen),
            tools.holds(vfs@, root@, seen),
            docker_yaml::opt_views(workspace) == what(
                last_found(seen, tells_workspace(vfs@, root@)),
            ),
    {
        let path = paths[i];
        proof {
            assert(order.take(i + 1).drop_last() =~= order.take(i as int));
            assert(order[i as int] == path@);
            assert(order.contains(path@));
        }
        if text::starts_with(path, &root) {
            files.note(vfs, path, Ghost(seen));
            lock.note(&root, path, Ghost(seen));
            docker.note(vfs, &root, path, Ghost(seen));
            let package: Option<(PackageJsonData, bool)> = if tooling::is_root_file(
                path,
                &root,
                "package.json",
            ) {
                match vfs.read_utf8(path) {
                    Some(source) => manifest::parse_package_json(source),
                    None => None,
                }
            } else {
                None
            };
            let tsconfig: Option<TsConfigData> = if tooling::is_root_file(
                path,
                &root,
                "tsconfig.json",
            ) || tooling::is_root_file(path, &root, "jsconfig.json") {
                manifest::parse_tsconfig_resolved(vfs, path)
            } else {
                None
            };
            tools.note(&root, path, &package, tsconfig.is_some(), Ghost(vfs@), Ghost(seen));
            let data: Option<PackageJsonData> = match package {
                Some((data, _)) => Some(data),
                None => None,
            };
            packages.note(vfs, &root, path, data, Ghost(seen));
            ts.note(path, tsconfig, Ghost(vfs@), Ghost(root@), Ghost(seen));
            workspace = note_workspace(workspace, vfs, &root, path, Ghost(seen));
            proof {
                seen = seen.push(path@);
            }
        }
    }
    assert(order.take(paths@.len() as int) =~= order);
    let detected_tools = text::sort_and_dedup(tools.names);
    let entry_point_guess = entry_point::resolve_entry_point(vfs, &root, manual_entry_point);
    ScanResult {
        total_files: files.parseable.len() + files.other.len(),
        parseable_count: files.parseable.len(),
        skipped_count: files.other.len(),
        package_manager: lock.manager,
        lockfile_path: lock.path,
        is_monorepo: tools.is_monorepo,
        has_package_json: packages.path.is_some(),
        package_json_path: packages.path,
        npm_package_name: packages.name,
        entry_point_guess,
        parseable_files: files.parseable,
        non_parseable_files: files.other,
        has_docker: docker.has_docker,
        has_ci: docker.has_ci,
        detected_tools,
        package_data: packages.data,
        tsconfig_path: ts.path,
        tsconfig: ts.data,
        dockerfile: docker.dockerfile,
        docker_compose: docker.compose,
        pnpm_workspace_packages: workspace,
    }
}

// ---- laws ----

/// Each file below the root is listed once: with those that can be parsed or
/// with the others.
pub proof fn law_every_file_is_listed_once(vfs: VfsView, paths: Seq<Seq<char>>)
    ensures
        entries_for(vfs, paths, true).len() + entries_for(vfs, paths, false).len() == paths.len(),
    decreases paths.len(),
{
    if paths.len() > 0 {
        law_every_file_is_listed_once(vfs, paths.drop_last());
    }
}

/// A file is listed with its like: what is listed as parseable is, and what
/// is listed apart is not.
pub proof fn law_files_are_listed_with_their_like(
    vfs: VfsView,
    paths: Seq<Seq<char>>,
    parseable: bool,
    i: int,
)
    requires
        0 <= i < entries_for(vfs, paths, parseable).len(),
    ensures
        entries_for(vfs, paths, parseable)[i].is_parseable == parseable,
        paths.contains(entries_for(vfs, paths, parseable)[i].path),
    decreases paths.len(),
{
    let init = paths.drop_last();
    if i < entries_for(vfs, init, parseable).len() {
        law_files_are_listed_with_their_like(vfs, init, parseable, i);
        let path = entries_for(vfs, init, parseable)[i].path;
        assert(paths[init.index_of(path)] == path);
    } else {
        assert(paths[paths.len() - 1] == paths.last());
    }
}

/// Without a root that the user names, nothing is left out.
pub proof fn law_no_root_leaves_nothing_out(paths: Seq<Seq<char>>)
    ensures
        below(paths, root_of(None)) == paths,
    decreases paths.len(),
{
    if paths.len() > 0 {
        law_no_root_leaves_nothing_out(paths.drop_last());
        assert(Seq::<char>::empty() =~= paths.last().subrange(0, 0));
        assert(paths.drop_last().push(paths.last()) =~= paths);
    } else {
        assert(paths =~= Seq::empty());
    }
}

proof fn lemma_below(paths: Seq<Seq<char>>, root: Seq<char>, path: Seq<char>)
    ensures
        below(paths, root).contains(path) <==> paths.contains(path) && root.is_prefix_of(path),
    decreases paths.len(),
{
    if paths.len() > 0 {
        let init = paths.drop_last();
        lemma_below(init, root, path);
        let shown = below(paths, root);
        let before = below(init, root);
        if init.contains(path) {
            assert(paths[init.index_of(path)] == path);
        }
        if paths.contains(path) && path != paths.last() {
            assert(init[paths.index_of(path)] == path);
        }
        if path == paths.last() {
            assert(paths[paths.len() - 1] == path);
        }
        if root.is_prefix_of(paths.last()) {
            if before.contains(path) {
                assert(shown[before.index_of(path)] == path);
            }
            if path == paths.last() {
                assert(shown[before.len() as int] == path);
            }
            if shown.contains(path) && path != paths.last() {
                assert(before[shown.index_of(path)] == path);
            }
        }
    }
}

/// A file is looked at exactly if the project has it and it lies below the
/// root.
pub proof fn law_only_files_below_the_root_are_seen(vfs: VfsView, root: Seq<char>, path: Seq<char>)
    requires
        vfs.well_formed(),
    ensures
        visible(vfs, root).contains(path) <==> vfs.files.contains_key(path) && root.is_prefix_of(
            path,
        ),
{
    lemma_below(vfs.order, root, path);
}

proof fn lemma_last_package_path(paths: Seq<Seq<char>>, root: Seq<char>)
    ensures
        place(last_found(paths, tells_package_path(root))) == if paths.contains(
            root + "package.json"@,
        ) {
            Some(root + "package.json"@)
        } else {
            None
        },
    decreases paths.len(),
{
    let key = root + "package.json"@;
    if paths.len() > 0 {
        let init = paths.drop_last();
        lemma_last_package_path(init, root);
        if paths.last() == key {
            assert(paths[paths.len() - 1] == key);
        } else {
            if init.contains(key) {
                assert(paths[init.index_of(key)] == key);
            }
            if paths.contains(key) {
                assert(init[paths.index_of(key)] == key);
            }
        }
    }
}

/// The `package.json` that counts is the one at the root, if there is one.
pub proof fn law_package_json_is_the_one_at_the_root(vfs: VfsView, root: Seq<char>)
    requires
        vfs.well_formed(),
    ensures
        place(last_found(visible(vfs, root), tells_package_path(root)))
            == if vfs.files.contains_key(root + "package.json"@) {
            Some(root + "package.json"@)
        } else {
            None
        },
{
    let key = root + "package.json"@;
    lemma_last_package_path(visible(vfs, root), root);
    lemma_below(vfs.order, root, key);
    assert(key.subrange(0, root.len() as int) =~= root);
    assert(vfs.order.contains(key) <==> vfs.files.contains_key(key));
}

/// The root ends in a slash, whether the user writes it or not; without a word
/// from the user it is empty.
pub proof fn law_roots_end_in_a_slash(root: Seq<char>)
    ensures
        root_of(None).len() == 0,
        root_of(Some(root.push('/'))) == root.push('/'),
        !(root.len() > 0 && root[root.len() - 1] == '/') ==> root_of(Some(root)) == root.push('/'),
{
    reveal_strlit("/");
    assert(root + "/"@ =~= root.push('/'));
}

proof fn lemma_at_root_is_seen(vfs: VfsView, root: Seq<char>, name: Seq<char>)
    requires
        vfs.well_formed(),
    ensures
        visible(vfs, root).contains(root + name) <==> vfs.files.contains_key(root + name),
{
    law_only_files_below_the_root_are_seen(vfs, root, root + name);
    text::lemma_prefix_and_rest(root + name, root);
}

proof fn lemma_last_found<T>(paths: Seq<Seq<char>>, tells: spec_fn(Seq<char>) -> Option<T>)
    ensures
        last_found(paths, tells) matches Some((path, value)) ==> paths.contains(path) && tells(path)
            == Some(value),
        last_found(paths, tells) is None ==> forall|i: int|
            0 <= i < paths.len() ==> tells(#[trigger] paths[i]) is None,
    decreases paths.len(),
{
    if paths.len() > 0 {
        let init = paths.drop_last();
        lemma_last_found(init, tells);
        assert(paths.last() == paths[paths.len() - 1]);
        if tells(paths.last()) is None {
            if let Some((path, value)) = last_found(init, tells) {
                assert(paths[init.index_of(path)] == path);
            } else {
                assert forall|i: int| 0 <= i < paths.len() implies tells(
                    #[trigger] paths[i],
                ) is None by {
                    if i < init.len() {
                        assert(init[i] == paths[i]);
                    }
                }
            }
        }
    }
}

/// What is told by one path only is found there or nowhere.
proof fn lemma_found_there_or_nowhere<T>(
    paths: Seq<Seq<char>>,
    tells: spec_fn(Seq<char>) -> Option<T>,
    path: Seq<char>,
)
    requires
        forall|p: Seq<char>| p != path ==> #[trigger] tells(p) is None,
    ensures
        paths.contains(path) ==> what(last_found(paths, tells)) == tells(path),
        !paths.contains(path) ==> last_found(paths, tells) is None,
        last_found(paths, tells) matches Some((p, _)) ==> p == path,
{
    lemma_last_found(paths, tells);
    if paths.contains(path) {
        let i = paths.index_of(path);
        assert(paths[i] == path);
    }
}

/// All the files below the root are counted: those that can be parsed and those
/// that are skipped make up the total.
pub proof fn law_counts_add_up(
    result: ScanResult,
    vfs: VfsView,
    root: Seq<char>,
    manual: Option<Seq<char>>,
)
    requires
        tells(result, vfs, root, manual),
    ensures
        result.total_files == result.parseable_count + result.skipped_count,
        result.total_files == visible(vfs, root).len(),
        result.parseable_count == result.parseable_files@.len(),
        result.skipped_count == result.non_parseable_files@.len(),
{
    let paths = visible(vfs, root);
    law_every_file_is_listed_once(vfs, paths);
    assert(file_classify::entries_view(result.parseable_files@).len()
        == result.parseable_files@.len());
    assert(file_classify::entries_view(result.non_parseable_files@).len()
        == result.non_parseable_files@.len());
}

proof fn lemma_listed(vfs: VfsView, paths: Seq<Seq<char>>, path: Seq<char>) -> (i: int)
    requires
        paths.contains(path),
    ensures
        0 <= i < entries_for(vfs, paths, file_classify::is_parseable(path)).len(),
        entries_for(vfs, paths, file_classify::is_parseable(path))[i] == entry_for(vfs, path),
    decreases paths.len(),
{
    let init = paths.drop_last();
    let parseable = file_classify::is_parseable(path);
    if paths.last() == path {
        entries_for(vfs, init, parseable).len() as int
    } else {
        assert(init[paths.index_of(path)] == path);
        lemma_listed(vfs, init, path)
    }
}

/// Every file below the root is listed, with its path and its size: among those
/// that can be parsed exactly if what follows the last dot of its path is one of
/// the extensions for that.
pub proof fn law_every_file_is_listed(
    result: ScanResult,
    vfs: VfsView,
    root: Seq<char>,
    manual: Option<Seq<char>>,
    path: Seq<char>,
)
    requires
        tells(result, vfs, root, manual),
        vfs.well_formed(),
        vfs.files.contains_key(path),
        root.is_prefix_of(path),
    ensures
        file_classify::is_parseable(path) ==> exists|i: int|
            0 <= i < result.parseable_files@.len() && (#[trigger] result.parseable_files@[i]).path@
                == path && result.parseable_files@[i].size_bytes == vfs.files[path].len() as u32
                && result.parseable_files@[i].is_test == file_classify::is_test(path)
                && result.parseable_files@[i].is_vendor == file_classify::is_vendor(path),
        !file_classify::is_parseable(path) ==> exists|i: int|
            0 <= i < result.non_parseable_files@.len()
                && (#[trigger] result.non_parseable_files@[i]).path@ == path
                && result.non_parseable_files@[i].size_bytes == vfs.files[path].len() as u32
                && result.non_parseable_files@[i].is_test == file_classify::is_test(path)
                && result.non_parseable_files@[i].is_vendor == file_classify::is_vendor(path),
{
    let paths = visible(vfs, root);
    law_only_files_below_the_root_are_seen(vfs, root, path);
    let i = lemma_listed(vfs, paths, path);
    if file_classify::is_parseable(path) {
        assert(file_classify::entries_view(result.parseable_files@)[i]
            == result.parseable_files@[i]@);
        assert(result.parseable_files@[i].path@ == path);
    } else {
        assert(file_classify::entries_view(result.non_parseable_files@)[i]
            == result.non_parseable_files@[i]@);
        assert(result.non_parseable_files@[i].path@ == path);
    }
}

/// The package manager is told by a lockfile at the root, which is named with
/// it; where there is none of them, none is told.
pub proof fn law_the_lockfile_tells_the_package_manager(
    result: ScanResult,
    vfs: VfsView,
    root: Seq<char>,
    manual: Option<Seq<char>>,
)
    requires
        tells(result, vfs, root, manual),
        vfs.well_formed(),
    ensures
        result.package_manager is Some <==> {
            ||| vfs.files.contains_key(root + "package-lock.json"@)
            ||| vfs.files.contains_key(root + "yarn.lock"@)
            ||| vfs.files.contains_key(root + "pnpm-lock.yaml"@)
            ||| vfs.files.contains_key(root + "bun.lockb"@)
        },
        result.lockfile_path is Some <==> result.package_manager is Some,
        result.package_manager is Some ==> vfs.files.contains_key(result.lockfile_path->0@) && {
            ||| result.package_manager->0@ == "npm"@ && result.lockfile_path->0@ == root + "package-lock.json"@
            ||| result.package_manager->0@ == "yarn"@ && result.lockfile_path->0@ == root + "yarn.lock"@
            ||| result.package_manager->0@ == "pnpm"@ && result.lockfile_path->0@ == root + "pnpm-lock.yaml"@
            ||| result.package_manager->0@ == "bun"@ && result.lockfile_path->0@ == root + "bun.lockb"@
        },
{
    let paths = visible(vfs, root);
    let found = tells_manager(root);
    lemma_last_found(paths, found);
    lemma_at_root_is_seen(vfs, root, "package-lock.json"@);
    tooling::law_lockfiles_tell_the_package_manager(root + "package-lock.json"@, root);
    if paths.contains(root + "package-lock.json"@) {
        assert(paths[paths.index_of(root + "package-lock.json"@)] == root + "package-lock.json"@);
        assert(found(root + "package-lock.json"@) is Some);
    }
    lemma_at_root_is_seen(vfs, root, "yarn.lock"@);
    tooling::law_lockfiles_tell_the_package_manager(root + "yarn.lock"@, root);
    if paths.contains(root + "yarn.lock"@) {
        assert(paths[paths.index_of(root + "yarn.lock"@)] == root + "yarn.lock"@);
        assert(found(root + "yarn.lock"@) is Some);
    }
    lemma_at_root_is_seen(vfs, root, "pnpm-lock.yaml"@);
    tooling::law_lockfiles_tell_the_package_manager(root + "pnpm-lock.yaml"@, root);
    if paths.contains(root + "pnpm-lock.yaml"@) {
        assert(paths[paths.index_of(root + "pnpm-lock.yaml"@)] == root + "pnpm-lock.yaml"@);
        assert(found(root + "pnpm-lock.yaml"@) is Some);
    }
    lemma_at_root_is_seen(vfs, root, "bun.lockb"@);
    tooling::law_lockfiles_tell_the_package_manager(root + "bun.lockb"@, root);
    if paths.contains(root + "bun.lockb"@) {
        assert(paths[paths.index_of(root + "bun.lockb"@)] == root + "bun.lockb"@);
        assert(found(root + "bun.lockb"@) is Some);
    }
    if let Some((path, _)) = last_found(paths, found) {
        tooling::law_lockfiles_tell_the_package_manager(path, root);
    }
}

/// A project is a monorepo exactly if the file of a monorepo tool is at its
/// root, or if the `package.json` there has workspaces.
pub proof fn law_what_makes_a_monorepo(
    result: ScanResult,
    vfs: VfsView,
    root: Seq<char>,
    manual: Option<Seq<char>>,
)
    requires
        tells(result, vfs, root, manual),
        vfs.well_formed(),
    ensures
        result.is_monorepo <==> {
            ||| vfs.files.contains_key(root + "turbo.json"@)
            ||| vfs.files.contains_key(root + "nx.json"@)
            ||| vfs.files.contains_key(root + "lerna.json"@)
            ||| vfs.files.contains_key(root + "pnpm-workspace.yaml"@)
            ||| vfs.files.contains_key(root + "package.json"@) && (vfs.text_of(
                root + "package.json"@,
            ) matches Some(source) && manifest::package_json(source) matches Some((_, true)))
        },
{
    let paths = visible(vfs, root);
    lemma_at_root_is_seen(vfs, root, "turbo.json"@);
    tooling::law_workspace_files_tell_a_monorepo(root + "turbo.json"@, root);
    if paths.contains(root + "turbo.json"@) {
        let i = paths.index_of(root + "turbo.json"@);
        assert(paths[i] == root + "turbo.json"@);
    }
    lemma_at_root_is_seen(vfs, root, "nx.json"@);
    tooling::law_workspace_files_tell_a_monorepo(root + "nx.json"@, root);
    if paths.contains(root + "nx.json"@) {
        let i = paths.index_of(root + "nx.json"@);
        assert(paths[i] == root + "nx.json"@);
    }
    lemma_at_root_is_seen(vfs, root, "lerna.json"@);
    tooling::law_workspace_files_tell_a_monorepo(root + "lerna.json"@, root);
    if paths.contains(root + "lerna.json"@) {
        let i = paths.index_of(root + "lerna.json"@);
        assert(paths[i] == root + "lerna.json"@);
    }
    lemma_at_root_is_seen(vfs, root, "pnpm-workspace.yaml"@);
    tooling::law_workspace_files_tell_a_monorepo(root + "pnpm-workspace.yaml"@, root);
    if paths.contains(root + "pnpm-workspace.yaml"@) {
        let i = paths.index_of(root + "pnpm-workspace.yaml"@);
        assert(paths[i] == root + "pnpm-workspace.yaml"@);
    }
    lemma_at_root_is_seen(vfs, root, "package.json"@);
    tooling::law_workspace_files_tell_a_monorepo(root + "package.json"@, root);
    if paths.contains(root + "package.json"@) {
        let i = paths.index_of(root + "package.json"@);
        assert(paths[i] == root + "package.json"@);
    }
    if result.is_monorepo {
        let i = choose|i: int|
            0 <= i < paths.len() && tells_of_monorepo(vfs, root, #[trigger] paths[i]);
        assert(paths.contains(paths[i]));
        tooling::law_workspace_files_tell_a_monorepo(paths[i], root);
    }
}

/// A project has Docker exactly if one of its files below the root is for it,
/// and continuous integration exactly if one is for that.
pub proof fn law_docker_and_integration_are_told_by_files(
    result: ScanResult,
    vfs: VfsView,
    root: Seq<char>,
    manual: Option<Seq<char>>,
)
    requires
        tells(result, vfs, root, manual),
        vfs.well_formed(),
    ensures
        result.has_docker <==> exists|p: Seq<char>|
            vfs.files.contains_key(p) && root.is_prefix_of(p) && #[trigger] tooling::is_docker(p),
        result.has_ci <==> exists|p: Seq<char>|
            vfs.files.contains_key(p) && root.is_prefix_of(p) && #[trigger] tooling::is_ci(p),
{
    let paths = visible(vfs, root);
    assert forall|p: Seq<char>|
        vfs.files.contains_key(p) && root.is_prefix_of(p) <==> #[trigger] paths.contains(p) by {
        law_only_files_below_the_root_are_seen(vfs, root, p);
    }
    if result.has_docker {
        let i = choose|i: int| 0 <= i < paths.len() && tooling::is_docker(#[trigger] paths[i]);
        assert(paths.contains(paths[i]));
    }
    if exists|p: Seq<char>|
        vfs.files.contains_key(p) && root.is_prefix_of(p) && #[trigger] tooling::is_docker(p) {
        let p = choose|p: Seq<char>|
            vfs.files.contains_key(p) && root.is_prefix_of(p) && #[trigger] tooling::is_docker(p);
        assert(paths.contains(p));
        assert(tooling::is_docker(paths[paths.index_of(p)]));
    }
    if result.has_ci {
        let i = choose|i: int| 0 <= i < paths.len() && tooling::is_ci(#[trigger] paths[i]);
        assert(paths.contains(paths[i]));
    }
    if exists|p: Seq<char>|
        vfs.files.contains_key(p) && root.is_prefix_of(p) && #[trigger] tooling::is_ci(p) {
        let p = choose|p: Seq<char>|
            vfs.files.contains_key(p) && root.is_prefix_of(p) && #[trigger] tooling::is_ci(p);
        assert(paths.contains(p));
        assert(tooling::is_ci(paths[paths.index_of(p)]));
    }
}

proof fn lemma_tool_at_root(vfs: VfsView, root: Seq<char>, name: Seq<char>, tool: Seq<char>)
    requires
        vfs.well_formed(),
        vfs.files.contains_key(root + name),
        tells_of_tool(vfs, root, root + name, tool),
    ensures
        tool_among(vfs, root, visible(vfs, root), tool),
{
    let paths = visible(vfs, root);
    lemma_at_root_is_seen(vfs, root, name);
    let i = paths.index_of(root + name);
    assert(paths[i] == root + name);
}

/// The files at the root that configure a tool tell of it.
pub proof fn law_configurations_are_detected(
    result: ScanResult,
    vfs: VfsView,
    root: Seq<char>,
    manual: Option<Seq<char>>,
)
    requires
        tells(result, vfs, root, manual),
        vfs.well_formed(),
    ensures
        vfs.files.contains_key(root + "turbo.json"@) ==> text::views(result.detected_tools@).contains(
            "Turborepo"@,
        ),
        vfs.files.contains_key(root + "nx.json"@) ==> text::views(result.detected_tools@).contains(
            "Nx"@,
        ),
        vfs.files.contains_key(root + "lerna.json"@) ==> text::views(result.detected_tools@).contains(
            "Lerna"@,
        ),
        vfs.files.contains_key(root + "vite.config.ts"@) ==> text::views(result.detected_tools@).contains(
            "Vite"@,
        ),
        vfs.files.contains_key(root + "vite.config.js"@) ==> text::views(result.detected_tools@).contains(
            "Vite"@,
        ),
        vfs.files.contains_key(root + "webpack.config.ts"@) ==> text::views(result.detected_tools@).contains(
            "Webpack"@,
        ),
        vfs.files.contains_key(root + "webpack.config.js"@) ==> text::views(result.detected_tools@).contains(
            "Webpack"@,
        ),
        vfs.files.contains_key(root + "next.config.js"@) ==> text::views(result.detected_tools@).contains(
            "Next.js"@,
        ),
        vfs.files.contains_key(root + "next.config.ts"@) ==> text::views(result.detected_tools@).contains(
            "Next.js"@,
        ),
        vfs.files.contains_key(root + "next.config.mjs"@) ==> text::views(result.detected_tools@).contains(
            "Next.js"@,
        ),
        vfs.files.contains_key(root + "astro.config.mjs"@) ==> text::views(result.detected_tools@).contains(
            "Astro"@,
        ),
        vfs.files.contains_key(root + "astro.config.ts"@) ==> text::views(result.detected_tools@).contains(
            "Astro"@,
        ),
{
    tooling::law_workspace_files_tell_a_monorepo(root + "turbo.json"@, root);
    tooling::law_configurations_tell_the_build_tool(root, root);
    if vfs.files.contains_key(root + "turbo.json"@) {
        lemma_tool_at_root(vfs, root, "turbo.json"@, "Turborepo"@);
    }
    if vfs.files.contains_key(root + "nx.json"@) {
        lemma_tool_at_root(vfs, root, "nx.json"@, "Nx"@);
    }
    if vfs.files.contains_key(root + "lerna.json"@) {
        lemma_tool_at_root(vfs, root, "lerna.json"@, "Lerna"@);
    }
    if vfs.files.contains_key(root + "vite.config.ts"@) {
        lemma_tool_at_root(vfs, root, "vite.config.ts"@, "Vite"@);
    }
    if vfs.files.contains_key(root + "vite.config.js"@) {
        lemma_tool_at_root(vfs, root, "vite.config.js"@, "Vite"@);
    }
    if vfs.files.contains_key(root + "webpack.config.ts"@) {
        lemma_tool_at_root(vfs, root, "webpack.config.ts"@, "Webpack"@);
    }
    if vfs.files.contains_key(root + "webpack.config.js"@) {
        lemma_tool_at_root(vfs, root, "webpack.config.js"@, "Webpack"@);
    }
    if vfs.files.contains_key(root + "next.config.js"@) {
        lemma_tool_at_root(vfs, root, "next.config.js"@, "Next.js"@);
    }
    if vfs.files.contains_key(root + "next.config.ts"@) {
        lemma_tool_at_root(vfs, root, "next.config.ts"@, "Next.js"@);
    }
    if vfs.files.contains_key(root + "next.config.mjs"@) {
        lemma_tool_at_root(vfs, root, "next.config.mjs"@, "Next.js"@);
    }
    if vfs.files.contains_key(root + "astro.config.mjs"@) {
        lemma_tool_at_root(vfs, root, "astro.config.mjs"@, "Astro"@);
    }
    if vfs.files.contains_key(root + "astro.config.ts"@) {
        lemma_tool_at_root(vfs, root, "astro.config.ts"@, "Astro"@);
    }
}

/// The dependencies of the `package.json` at the root tell of their frameworks,
/// and a compiler configuration there that can be read tells of TypeScript.
pub proof fn law_dependencies_and_configurations_are_detected(
    result: ScanResult,
    vfs: VfsView,
    root: Seq<char>,
    manual: Option<Seq<char>>,
    data: PackageJsonView,
)
    requires
        tells(result, vfs, root, manual),
        vfs.well_formed(),
        result.package_data matches Some(own) ==> own@ == data,
    ensures
        result.package_data is Some && data.dependencies.contains("next"@) ==> text::views(
            result.detected_tools@,
        ).contains("Next.js"@),
        result.package_data is Some && data.dependencies.contains("nuxt"@) ==> text::views(
            result.detected_tools@,
        ).contains("Nuxt"@),
        result.package_data is Some && data.dependencies.contains("gatsby"@) ==> text::views(
            result.detected_tools@,
        ).contains("Gatsby"@),
        result.package_data is Some && data.dependencies.contains("astro"@) ==> text::views(
            result.detected_tools@,
        ).contains("Astro"@),
        result.package_data is Some && data.dependencies.contains("@remix-run/react"@) ==> text::views(
            result.detected_tools@,
        ).contains("Remix"@),
        result.tsconfig is Some ==> text::views(result.detected_tools@).contains("TypeScript"@),
{
    let paths = visible(vfs, root);
    let found = tells_package(vfs, root);
    lemma_last_found(paths, found);
    if let Some((path, told)) = last_found(paths, found) {
        let i = paths.index_of(path);
        assert(paths[i] == path);
        let names = tooling::frameworks(told.dependencies);
        tooling::law_dependencies_tell_the_frameworks(told.dependencies);
        if told.dependencies.contains("next"@) {
            lemma_framework_is_told(told.dependencies, "next"@, "Next.js"@);
            assert(tells_of_tool(vfs, root, paths[i], "Next.js"@));
        }
        if told.dependencies.contains("nuxt"@) {
            lemma_framework_is_told(told.dependencies, "nuxt"@, "Nuxt"@);
            assert(tells_of_tool(vfs, root, paths[i], "Nuxt"@));
        }
        if told.dependencies.contains("gatsby"@) {
            lemma_framework_is_told(told.dependencies, "gatsby"@, "Gatsby"@);
            assert(tells_of_tool(vfs, root, paths[i], "Gatsby"@));
        }
        if told.dependencies.contains("astro"@) {
            lemma_framework_is_told(told.dependencies, "astro"@, "Astro"@);
            assert(tells_of_tool(vfs, root, paths[i], "Astro"@));
        }
        if told.dependencies.contains("@remix-run/react"@) {
            lemma_framework_is_told(told.dependencies, "@remix-run/react"@, "Remix"@);
            assert(tells_of_tool(vfs, root, paths[i], "Remix"@));
        }
    }
    let configured = tells_tsconfig(vfs, root);
    lemma_last_found(paths, configured);
    if let Some((path, told)) = last_found(paths, configured) {
        let i = paths.index_of(path);
        assert(paths[i] == path);
        assert(tells_of_tool(vfs, root, paths[i], "TypeScript"@));
    }
}

proof fn lemma_framework_is_told(
    dependencies: Seq<Seq<char>>,
    dependency: Seq<char>,
    framework: Seq<char>,
)
    requires
        dependencies.contains(dependency),
        (dependency, framework) == ("next"@, "Next.js"@)
            || (dependency, framework) == ("nuxt"@, "Nuxt"@)
            || (dependency, framework) == ("gatsby"@, "Gatsby"@)
            || (dependency, framework) == ("astro"@, "Astro"@)
            || (dependency, framework) == ("@remix-run/react"@, "Remix"@),
    ensures
        tooling::frameworks(dependencies).contains(framework),
{
    tooling::law_dependencies_tell_the_frameworks(dependencies);
    let all = tooling::frameworks(dependencies);
    let p0 = tooling::framework_if(dependencies, "next"@, "Next.js"@);
    let p1 = tooling::framework_if(dependencies, "nuxt"@, "Nuxt"@);
    let p2 = tooling::framework_if(dependencies, "gatsby"@, "Gatsby"@);
    let p3 = tooling::framework_if(dependencies, "astro"@, "Astro"@);
    let p4 = tooling::framework_if(dependencies, "@remix-run/react"@, "Remix"@);
    assert(all == p0 + p1 + p2 + p3 + p4);
    if (dependency, framework) == ("next"@, "Next.js"@) {
        assert(all[0] == framework);
    } else if (dependency, framework) == ("nuxt"@, "Nuxt"@) {
        assert(all[p0.len() as int] == framework);
    } else if (dependency, framework) == ("gatsby"@, "Gatsby"@) {
        assert(all[(p0 + p1).len() as int] == framework);
    } else if (dependency, framework) == ("astro"@, "Astro"@) {
        assert(all[(p0 + p1 + p2).len() as int] == framework);
    } else {
        assert(all[(p0 + p1 + p2 + p3).len() as int] == framework);
    }
}

/// The tools are listed in order, each once, and none but the known ones is.
pub proof fn law_only_known_tools_are_detected(
    result: ScanResult,
    vfs: VfsView,
    root: Seq<char>,
    manual: Option<Seq<char>>,
    tool: Seq<char>,
)
    requires
        tells(result, vfs, root, manual),
    ensures
        text::is_strictly_sorted(text::views(result.detected_tools@)),
        text::views(result.detected_tools@).contains(tool) ==> {
            ||| tool == "Turborepo"@
            ||| tool == "Nx"@
            ||| tool == "Lerna"@
            ||| tool == "Vite"@
            ||| tool == "Webpack"@
            ||| tool == "Next.js"@
            ||| tool == "Astro"@
            ||| tool == "Nuxt"@
            ||| tool == "Gatsby"@
            ||| tool == "Remix"@
            ||| tool == "TypeScript"@
        },
{
    let paths = visible(vfs, root);
    if text::views(result.detected_tools@).contains(tool) {
        assert(tool_among(vfs, root, paths, tool));
        let i = choose|i: int|
            0 <= i < paths.len() && tells_of_tool(vfs, root, #[trigger] paths[i], tool);
        tooling::law_workspace_files_tell_a_monorepo(paths[i], root);
        tooling::law_configurations_tell_the_build_tool(paths[i], root);
        if let Some((data, _)) = package_at(vfs, root, paths[i]) {
            let names = tooling::frameworks(data.dependencies);
            tooling::law_dependencies_tell_the_frameworks(data.dependencies);
            if names.contains(tool) {
                let k = names.index_of(tool);
                assert(names[k] == tool);
            }
        }
    }
}

/// The `package.json` at the root is the one that counts: where it is, and what
/// it says if it is text that can be read.
pub proof fn law_the_package_at_the_root_is_told(
    result: ScanResult,
    vfs: VfsView,
    root: Seq<char>,
    manual: Option<Seq<char>>,
)
    requires
        tells(result, vfs, root, manual),
        vfs.well_formed(),
    ensures
        result.has_package_json <==> vfs.files.contains_key(root + "package.json"@),
        result.has_package_json ==> text::opt_view(result.package_json_path) == Some(
            root + "package.json"@,
        ),
        !result.has_package_json ==> result.package_json_path is None && result.npm_package_name
            is None && result.package_data is None,
        result.has_package_json ==> match vfs.text_of(root + "package.json"@) {
            Some(source) => text::opt_view(result.npm_package_name) == manifest::package_name(
                source,
            ) && package_view(result.package_data) == (match manifest::package_json(source) {
                Some((data, _)) => Some(data),
                None => None,
            }),
            None => result.npm_package_name is None && result.package_data is None,
        },
{
    let paths = visible(vfs, root);
    let key = root + "package.json"@;
    law_package_json_is_the_one_at_the_root(vfs, root);
    lemma_at_root_is_seen(vfs, root, "package.json"@);
    lemma_found_there_or_nowhere(paths, tells_package_name(vfs, root), key);
    lemma_found_there_or_nowhere(paths, tells_package(vfs, root), key);
}

/// The compiler configuration is that of `tsconfig.json` or `jsconfig.json` at
/// the root; with only one of them there, it is what that one says, if it can
/// be read.
pub proof fn law_the_compiler_configuration_is_told(
    result: ScanResult,
    vfs: VfsView,
    root: Seq<char>,
    manual: Option<Seq<char>>,
)
    requires
        tells(result, vfs, root, manual),
        vfs.well_formed(),
    ensures
        result.tsconfig_path is Some <==> result.tsconfig is Some,
        result.tsconfig_path matches Some(path) ==> (path@ == root + "tsconfig.json"@ || path@
            == root + "jsconfig.json"@) && vfs.files.contains_key(path@) && manifest::base_view(
            result.tsconfig,
        ) == manifest::tsconfig_at(vfs, path@, 0),
        result.tsconfig is None ==> (vfs.files.contains_key(root + "tsconfig.json"@)
            ==> manifest::tsconfig_at(vfs, root + "tsconfig.json"@, 0) is None),
        result.tsconfig is None ==> (vfs.files.contains_key(root + "jsconfig.json"@)
            ==> manifest::tsconfig_at(vfs, root + "jsconfig.json"@, 0) is None),
{
    let paths = visible(vfs, root);
    let found = tells_tsconfig(vfs, root);
    lemma_last_found(paths, found);
    lemma_at_root_is_seen(vfs, root, "tsconfig.json"@);
    lemma_at_root_is_seen(vfs, root, "jsconfig.json"@);
    if paths.contains(root + "tsconfig.json"@) {
        assert(paths[paths.index_of(root + "tsconfig.json"@)] == root + "tsconfig.json"@);
    }
    if paths.contains(root + "jsconfig.json"@) {
        assert(paths[paths.index_of(root + "jsconfig.json"@)] == root + "jsconfig.json"@);
    }
}

/// The `Dockerfile` at the root is told if it is for Docker, and the
/// `pnpm-workspace.yaml` there, each if it is text. Of the files below the root
/// that begin as a compose file does, one that can be read is told, if there is
/// any.
pub proof fn law_docker_and_workspace_files_are_told(
    result: ScanResult,
    vfs: VfsView,
    root: Seq<char>,
    manual: Option<Seq<char>>,
)
    requires
        tells(result, vfs, root, manual),
        vfs.well_formed(),
    ensures
        dockerfile_view(result.dockerfile) == (if vfs.files.contains_key(root + "Dockerfile"@)
            && tooling::is_docker(root + "Dockerfile"@) {
            match vfs.text_of(root + "Dockerfile"@) {
                Some(source) => Some(docker_yaml::dockerfile(source)),
                None => None,
            }
        } else {
            None
        }),
        docker_yaml::opt_views(result.pnpm_workspace_packages) == (if vfs.files.contains_key(
            root + "pnpm-workspace.yaml"@,
        ) {
            match vfs.text_of(root + "pnpm-workspace.yaml"@) {
                Some(source) => docker_yaml::pnpm_packages(source),
                None => None,
            }
        } else {
            None
        }),
        result.docker_compose is Some ==> exists|p: Seq<char>, source: Seq<char>|
            vfs.files.contains_key(p) && root.is_prefix_of(p) && "docker-compose"@.is_prefix_of(p)
                && vfs.text_of(p) == Some(source) && docker_yaml::opt_compose(result.docker_compose)
                == #[trigger] docker_yaml::docker_compose(source) && #[trigger] tooling::is_docker(
                p,
            ),
        forall|p: Seq<char>|
            result.docker_compose is None && #[trigger] vfs.files.contains_key(p)
                && root.is_prefix_of(p) && p != root + "Dockerfile"@
                && "docker-compose"@.is_prefix_of(p) ==> match vfs.text_of(p) {
                Some(source) => docker_yaml::docker_compose(source) is None,
                None => true,
            },
{
    let paths = visible(vfs, root);
    let docker = root + "Dockerfile"@;
    lemma_at_root_is_seen(vfs, root, "Dockerfile"@);
    lemma_at_root_is_seen(vfs, root, "pnpm-workspace.yaml"@);
    lemma_found_there_or_nowhere(paths, tells_dockerfile(vfs, root), docker);
    lemma_found_there_or_nowhere(
        paths,
        tells_workspace(vfs, root),
        root + "pnpm-workspace.yaml"@,
    );
    let found = tells_compose(vfs, root);
    lemma_last_found(paths, found);
    if let Some((path, told)) = last_found(paths, found) {
        let source = vfs.text_of(path)->0;
        law_only_files_below_the_root_are_seen(vfs, root, path);
        assert(docker_yaml::opt_compose(result.docker_compose) == docker_yaml::docker_compose(
            source,
        ));
        assert(tooling::is_docker(path));
    }
    assert forall|p: Seq<char>|
        result.docker_compose is None && #[trigger] vfs.files.contains_key(p) && root.is_prefix_of(
            p,
        ) && p != docker && "docker-compose"@.is_prefix_of(p) implies match vfs.text_of(p) {
        Some(source) => docker_yaml::docker_compose(source) is None,
        None => true,
    } by {
        law_only_files_below_the_root_are_seen(vfs, root, p);
        assert(paths[paths.index_of(p)] == p);
        assert(found(p) is None);
    }
}

/// Where the project begins is told as the entry point for the root.
pub proof fn law_the_entry_point_is_told(
    result: ScanResult,
    vfs: VfsView,
    root: Seq<char>,
    path: Seq<char>,
)
    ensures
        tells(result, vfs, root, Some(path)) ==> (text::opt_view(result.entry_point_guess) == Some(
            path,
        ) <==> vfs.files.contains_key(path)),
        tells(result, vfs, root, None) && vfs.files.contains_key(root + "src/index.ts"@)
            ==> text::opt_view(result.entry_point_guess) == Some(root + "src/index.ts"@),
        tells(result, vfs, root, None) ==> text::opt_view(result.entry_point_guess)
            == entry_point::entry_point(vfs, root, None),
{
    entry_point::law_the_user_decides(vfs, root, path);
    entry_point::law_guesses_have_an_order(vfs, root);
}

/// Files are listed in the order of the project, and only those below the root.
pub proof fn law_files_are_listed_in_order(
    vfs: VfsView,
    before: Seq<Seq<char>>,
    path: Seq<char>,
    root: Seq<char>,
    parseable: bool,
)
    ensures
        entries_for(vfs, Seq::empty(), parseable).len() == 0,
        file_classify::is_parseable(path) == parseable ==> entries_for(
            vfs,
            before.push(path),
            parseable,
        ) == entries_for(vfs, before, parseable).push(
            file_classify::classified(path, vfs.files[path].len() as u32),
        ),
        file_classify::is_parseable(path) != parseable ==> entries_for(
            vfs,
            before.push(path),
            parseable,
        ) == entries_for(vfs, before, parseable),
        below(Seq::empty(), root).len() == 0,
        root.is_prefix_of(path) ==> below(before.push(path), root) == below(before, root).push(path),
        !root.is_prefix_of(path) ==> below(before.push(path), root) == below(before, root),
{
    assert(before.push(path).drop_last() =~= before);
}

} // verus!
