//! Which tools the files of a project are for.
use crate::text;
use vstd::prelude::*;

verus! {

/// Whether `path` is that of the file `filename` at the root.
pub open spec fn at_root(path: Seq<char>, root: Seq<char>, filename: Seq<char>) -> bool {
    path == root + filename
}

/// Whether `path` is that of the file `filename` at the root.
pub fn is_root_file(path: &str, active_root: &str, filename: &str) -> (r: bool)
    ensures
        r == at_root(path@, active_root@, filename@),
{
    match text::strip_prefix(path, active_root) {
        Some(rest) => {
            proof {
                if rest@ == filename@ {
                    assert(path@ =~= active_root@ + filename@) by {
                        assert forall|i: int| 0 <= i < active_root@.len() implies path@[i]
                            == active_root@[i] by {
                            assert(path@.subrange(0, active_root@.len() as int)[i] == path@[i]);
                        }
                        assert forall|i: int|
                            active_root@.len() <= i < path@.len() implies #[trigger] path@[i]
                            == filename@[i - active_root@.len()] by {
                            assert(rest@[i - active_root@.len()] == path@[i]);
                        }
                    }
                } else {
                    assert((active_root@ + filename@).skip(active_root@.len() as int)
                        =~= filename@);
                }
            }
            text::same(&rest, filename)
        },
        None => {
            proof {
                assert((active_root@ + filename@).subrange(0, active_root@.len() as int)
                    =~= active_root@);
            }
            false
        },
    }
}

/// A lockfile, with the package manager that writes it.
pub struct LockfileMatch {
    pub package_manager: &'static str,
}

/// The package manager that writes the lockfile at `path`, if it is one at
/// the root.
pub open spec fn lockfile_manager(path: Seq<char>, root: Seq<char>) -> Option<Seq<char>> {
    if at_root(path, root, "package-lock.json"@) {
        Some("npm"@)
    } else if at_root(path, root, "yarn.lock"@) {
        Some("yarn"@)
    } else if at_root(path, root, "pnpm-lock.yaml"@) {
        Some("pnpm"@)
    } else if at_root(path, root, "bun.lockb"@) {
        Some("bun"@)
    } else {
        None
    }
}

/// The lockfile at `path`, if it is one at the root.
pub fn match_lockfile(path: &str, active_root: &str) -> (found: Option<LockfileMatch>)
    ensures
        match found {
            Some(m) => lockfile_manager(path@, active_root@) == Some(m.package_manager@),
            None => lockfile_manager(path@, active_root@) is None,
        },
{
    if is_root_file(path, active_root, "package-lock.json") {
        Some(LockfileMatch { package_manager: "npm" })
    } else if is_root_file(path, active_root, "yarn.lock") {
        Some(LockfileMatch { package_manager: "yarn" })
    } else if is_root_file(path, active_root, "pnpm-lock.yaml") {
        Some(LockfileMatch { package_manager: "pnpm" })
    } else if is_root_file(path, active_root, "bun.lockb") {
        Some(LockfileMatch { package_manager: "bun" })
    } else {
        None
    }
}

/// A file of a monorepo tool, with the name of the tool where it has one of
/// its own.
pub struct MonorepoToolMatch {
    pub tool_name: Option<&'static str>,
}

/// The monorepo tool that the file at `path` configures, if it is at the
/// root; a pnpm workspace has no name of its own.
pub open spec fn monorepo_tool(path: Seq<char>, root: Seq<char>) -> Option<Option<Seq<char>>> {
    if at_root(path, root, "turbo.json"@) {
        Some(Some("Turborepo"@))
    } else if at_root(path, root, "nx.json"@) {
        Some(Some("Nx"@))
    } else if at_root(path, root, "lerna.json"@) {
        Some(Some("Lerna"@))
    } else if at_root(path, root, "pnpm-workspace.yaml"@) {
        Some(None)
    } else {
        None
    }
}

/// The monorepo tool that the file at `path` configures, if it is at the
/// root.
pub fn match_monorepo_tool(path: &str, active_root: &str) -> (found: Option<MonorepoToolMatch>)
    ensures
        match found {
            Some(m) => monorepo_tool(path@, active_root@) == Some(text::opt_str_view(m.tool_name)),
            None => monorepo_tool(path@, active_root@) is None,
        },
{
    if is_root_file(path, active_root, "turbo.json") {
        Some(MonorepoToolMatch { tool_name: Some("Turborepo") })
    } else if is_root_file(path, active_root, "nx.json") {
        Some(MonorepoToolMatch { tool_name: Some("Nx") })
    } else if is_root_file(path, active_root, "lerna.json") {
        Some(MonorepoToolMatch { tool_name: Some("Lerna") })
    } else if is_root_file(path, active_root, "pnpm-workspace.yaml") {
        Some(MonorepoToolMatch { tool_name: None })
    } else {
        None
    }
}

/// The build tool that the file at `path` configures, if it is at the root.
pub open spec fn build_tool(path: Seq<char>, root: Seq<char>) -> Option<Seq<char>> {
    if at_root(path, root, "vite.config.ts"@) || at_root(path, root, "vite.config.js"@) {
        Some("Vite"@)
    } else if at_root(path, root, "webpack.config.ts"@) || at_root(
        path,
        root,
        "webpack.config.js"@,
    ) {
        Some("Webpack"@)
    } else if at_root(path, root, "next.config.js"@) || at_root(path, root, "next.config.ts"@)
        || at_root(path, root, "next.config.mjs"@) {
        Some("Next.js"@)
    } else if at_root(path, root, "astro.config.mjs"@) || at_root(path, root, "astro.config.ts"@) {
        Some("Astro"@)
    } else {
        None
    }
}

/// The build tool that the file at `path` configures, if it is at the root.
pub fn match_build_tool_config(path: &str, active_root: &str) -> (tool: Option<&'static str>)
    ensures
        text::opt_str_view(tool) == build_tool(path@, active_root@),
{
    if is_root_file(path, active_root, "vite.config.ts") || is_root_file(
        path,
        active_root,
        "vite.config.js",
    ) {
        Some("Vite")
    } else if is_root_file(path, active_root, "webpack.config.ts") || is_root_file(
        path,
        active_root,
        "webpack.config.js",
    ) {
        Some("Webpack")
    } else if is_root_file(path, active_root, "next.config.js") || is_root_file(
        path,
        active_root,
        "next.config.ts",
    ) || is_root_file(path, active_root, "next.config.mjs") {
        Some("Next.js")
    } else if is_root_file(path, active_root, "astro.config.mjs") || is_root_file(
        path,
        active_root,
        "astro.config.ts",
    ) {
        Some("Astro")
    } else {
        None
    }
}

/// Whether a file is for Docker.
pub open spec fn is_docker(path: Seq<char>) -> bool {
    path == "Dockerfile"@ || "docker-compose"@.is_prefix_of(path) || ".docker"@.is_prefix_of(path)
}

/// Whether a file is for Docker.
pub fn is_docker_file(path: &str) -> (r: bool)
    ensures
        r == is_docker(path@),
{
    text::same(path, "Dockerfile") || text::starts_with(path, "docker-compose")
        || text::starts_with(path, ".docker")
}

/// Whether a file is for continuous integration.
pub open spec fn is_ci(path: Seq<char>) -> bool {
    ".github/workflows/"@.is_prefix_of(path) || path == ".gitlab-ci.yml"@
        || ".circleci/"@.is_prefix_of(path)
}

/// Whether a file is for continuous integration.
pub fn is_ci_file(path: &str) -> (r: bool)
    ensures
        r == is_ci(path@),
{
    text::starts_with(path, ".github/workflows/") || text::same(path, ".gitlab-ci.yml")
        || text::starts_with(path, ".circleci/")
}

/// The frameworks that are told by a dependency: the dependency and the
/// framework.
pub open spec fn framework_table() -> Seq<(Seq<char>, Seq<char>)> {
    seq![
        ("next"@, "Next.js"@),
        ("nuxt"@, "Nuxt"@),
        ("gatsby"@, "Gatsby"@),
        ("astro"@, "Astro"@),
        ("@remix-run/react"@, "Remix"@),
    ]
}

/// The frameworks among rows of the table whose dependency is there.
pub open spec fn frameworks_among(
    table: Seq<(Seq<char>, Seq<char>)>,
    dependencies: Seq<Seq<char>>,
) -> Seq<Seq<char>>
    decreases table.len(),
{
    if table.len() == 0 {
        Seq::empty()
    } else {
        let before = frameworks_among(table.drop_last(), dependencies);
        if dependencies.contains(table.last().0) {
            before.push(table.last().1)
        } else {
            before
        }
    }
}

/// The frameworks that `dependencies` tell of, in the order of the table.
pub open spec fn frameworks(dependencies: Seq<Seq<char>>) -> Seq<Seq<char>> {
    frameworks_among(framework_table(), dependencies)
}

/// The frameworks that `dependencies` tell of, in the order of the table.
pub fn frameworks_from_dependencies(dependencies: &[String]) -> (found: Vec<&'static str>)
    ensures
        text::str_views(found@) == frameworks(text::views(dependencies@)),
{
    let names: Vec<&'static str> = vec!["next", "nuxt", "gatsby", "astro", "@remix-run/react"];
    let labels: Vec<&'static str> = vec!["Next.js", "Nuxt", "Gatsby", "Astro", "Remix"];
    let ghost table = framework_table();
    let mut found: Vec<&'static str> = Vec::new();
    assert(text::str_views(found@) =~= Seq::empty());
    assert forall|k: int| 0 <= k < 5 implies #[trigger] table[k] == (names@[k]@, labels@[k]@) by {}
    for i in 0..names.len()
        invariant
            names@.len() == 5,
            labels@.len() == 5,
            table == framework_table(),
            forall|k: int| 0 <= k < 5 ==> #[trigger] table[k] == (names@[k]@, labels@[k]@),
            text::str_views(found@) == frameworks_among(
                table.take(i as int),
                text::views(dependencies@),
            ),
    {
        let ghost before = text::str_views(found@);
        assert(table.take(i + 1).drop_last() =~= table.take(i as int));
        assert(table[i as int] == (names@[i as int]@, labels@[i as int]@));
        if text::is_listed(dependencies, names[i]) {
            found.push(labels[i]);
            assert(text::str_views(found@) =~= before.push(labels@[i as int]@));
        }
    }
    assert(table.take(5) =~= table);
    found
}

/// The lockfiles at the root, word by word, with the package managers that
/// write them; no other file tells one.
pub proof fn law_lockfiles_tell_the_package_manager(path: Seq<char>, root: Seq<char>)
    ensures
        lockfile_manager(root + "package-lock.json"@, root) == Some("npm"@),
        lockfile_manager(root + "yarn.lock"@, root) == Some("yarn"@),
        lockfile_manager(root + "pnpm-lock.yaml"@, root) == Some("pnpm"@),
        lockfile_manager(root + "bun.lockb"@, root) == Some("bun"@),
        lockfile_manager(path, root) is Some ==> {
            ||| path == root + "package-lock.json"@
            ||| path == root + "yarn.lock"@
            ||| path == root + "pnpm-lock.yaml"@
            ||| path == root + "bun.lockb"@
        },
{
    reveal_strlit("package-lock.json");
    reveal_strlit("yarn.lock");
    reveal_strlit("pnpm-lock.yaml");
    reveal_strlit("bun.lockb");
    text::lemma_same_start(root, "yarn.lock"@, "package-lock.json"@);
    text::lemma_same_start(root, "pnpm-lock.yaml"@, "package-lock.json"@);
    text::lemma_same_start(root, "pnpm-lock.yaml"@, "yarn.lock"@);
    text::lemma_same_start(root, "bun.lockb"@, "package-lock.json"@);
    text::lemma_same_start(root, "bun.lockb"@, "yarn.lock"@);
    assert("bun.lockb"@[0] != "yarn.lock"@[0]);
    text::lemma_same_start(root, "bun.lockb"@, "pnpm-lock.yaml"@);
}

/// The files at the root that make a project a monorepo, word by word, with the
/// tools that they name; no other file does.
pub proof fn law_workspace_files_tell_a_monorepo(path: Seq<char>, root: Seq<char>)
    ensures
        monorepo_tool(root + "turbo.json"@, root) == Some(Some("Turborepo"@)),
        monorepo_tool(root + "nx.json"@, root) == Some(Some("Nx"@)),
        monorepo_tool(root + "lerna.json"@, root) == Some(Some("Lerna"@)),
        monorepo_tool(root + "pnpm-workspace.yaml"@, root) == Some(None::<Seq<char>>),
        monorepo_tool(path, root) is Some ==> {
            ||| path == root + "turbo.json"@
            ||| path == root + "nx.json"@
            ||| path == root + "lerna.json"@
            ||| path == root + "pnpm-workspace.yaml"@
        },
{
    reveal_strlit("turbo.json");
    reveal_strlit("nx.json");
    reveal_strlit("lerna.json");
    reveal_strlit("pnpm-workspace.yaml");
    text::lemma_same_start(root, "nx.json"@, "turbo.json"@);
    text::lemma_same_start(root, "lerna.json"@, "turbo.json"@);
    assert("lerna.json"@[0] != "turbo.json"@[0]);
    text::lemma_same_start(root, "lerna.json"@, "nx.json"@);
    text::lemma_same_start(root, "pnpm-workspace.yaml"@, "turbo.json"@);
    text::lemma_same_start(root, "pnpm-workspace.yaml"@, "nx.json"@);
    text::lemma_same_start(root, "pnpm-workspace.yaml"@, "lerna.json"@);
}

/// The configuration files at the root, word by word, with the build tools that
/// they are for; no other file tells one.
pub proof fn law_configurations_tell_the_build_tool(path: Seq<char>, root: Seq<char>)
    ensures
        build_tool(root + "vite.config.ts"@, root) == Some("Vite"@),
        build_tool(root + "vite.config.js"@, root) == Some("Vite"@),
        build_tool(root + "webpack.config.ts"@, root) == Some("Webpack"@),
        build_tool(root + "webpack.config.js"@, root) == Some("Webpack"@),
        build_tool(root + "next.config.js"@, root) == Some("Next.js"@),
        build_tool(root + "next.config.ts"@, root) == Some("Next.js"@),
        build_tool(root + "next.config.mjs"@, root) == Some("Next.js"@),
        build_tool(root + "astro.config.mjs"@, root) == Some("Astro"@),
        build_tool(root + "astro.config.ts"@, root) == Some("Astro"@),
        build_tool(path, root) is Some ==> {
            ||| path == root + "vite.config.ts"@
            ||| path == root + "vite.config.js"@
            ||| path == root + "webpack.config.ts"@
            ||| path == root + "webpack.config.js"@
            ||| path == root + "next.config.js"@
            ||| path == root + "next.config.ts"@
            ||| path == root + "next.config.mjs"@
            ||| path == root + "astro.config.mjs"@
            ||| path == root + "astro.config.ts"@
        },
{
    reveal_strlit("vite.config.ts");
    reveal_strlit("vite.config.js");
    reveal_strlit("webpack.config.ts");
    reveal_strlit("webpack.config.js");
    reveal_strlit("next.config.js");
    reveal_strlit("next.config.ts");
    reveal_strlit("next.config.mjs");
    reveal_strlit("astro.config.mjs");
    reveal_strlit("astro.config.ts");
    text::lemma_same_start(root, "vite.config.js"@, "vite.config.ts"@);
    assert("vite.config.js"@[12] != "vite.config.ts"@[12]);
    text::lemma_same_start(root, "webpack.config.ts"@, "vite.config.ts"@);
    text::lemma_same_start(root, "webpack.config.ts"@, "vite.config.js"@);
    text::lemma_same_start(root, "webpack.config.js"@, "vite.config.ts"@);
    text::lemma_same_start(root, "webpack.config.js"@, "vite.config.js"@);
    text::lemma_same_start(root, "webpack.config.js"@, "webpack.config.ts"@);
    assert("webpack.config.js"@[15] != "webpack.config.ts"@[15]);
    text::lemma_same_start(root, "next.config.js"@, "vite.config.ts"@);
    assert("next.config.js"@[0] != "vite.config.ts"@[0]);
    text::lemma_same_start(root, "next.config.js"@, "vite.config.js"@);
    assert("next.config.js"@[0] != "vite.config.js"@[0]);
    text::lemma_same_start(root, "next.config.js"@, "webpack.config.ts"@);
    text::lemma_same_start(root, "next.config.js"@, "webpack.config.js"@);
    text::lemma_same_start(root, "next.config.ts"@, "vite.config.ts"@);
    assert("next.config.ts"@[0] != "vite.config.ts"@[0]);
    text::lemma_same_start(root, "next.config.ts"@, "vite.config.js"@);
    assert("next.config.ts"@[0] != "vite.config.js"@[0]);
    text::lemma_same_start(root, "next.config.ts"@, "webpack.config.ts"@);
    text::lemma_same_start(root, "next.config.ts"@, "webpack.config.js"@);
    text::lemma_same_start(root, "next.config.ts"@, "next.config.js"@);
    assert("next.config.ts"@[12] != "next.config.js"@[12]);
    text::lemma_same_start(root, "next.config.mjs"@, "vite.config.ts"@);
    text::lemma_same_start(root, "next.config.mjs"@, "vite.config.js"@);
    text::lemma_same_start(root, "next.config.mjs"@, "webpack.config.ts"@);
    text::lemma_same_start(root, "next.config.mjs"@, "webpack.config.js"@);
    text::lemma_same_start(root, "next.config.mjs"@, "next.config.js"@);
    text::lemma_same_start(root, "next.config.mjs"@, "next.config.ts"@);
    text::lemma_same_start(root, "astro.config.mjs"@, "vite.config.ts"@);
    text::lemma_same_start(root, "astro.config.mjs"@, "vite.config.js"@);
    text::lemma_same_start(root, "astro.config.mjs"@, "webpack.config.ts"@);
    text::lemma_same_start(root, "astro.config.mjs"@, "webpack.config.js"@);
    text::lemma_same_start(root, "astro.config.mjs"@, "next.config.js"@);
    text::lemma_same_start(root, "astro.config.mjs"@, "next.config.ts"@);
    text::lemma_same_start(root, "astro.config.mjs"@, "next.config.mjs"@);
    text::lemma_same_start(root, "astro.config.ts"@, "vite.config.ts"@);
    text::lemma_same_start(root, "astro.config.ts"@, "vite.config.js"@);
    text::lemma_same_start(root, "astro.config.ts"@, "webpack.config.ts"@);
    text::lemma_same_start(root, "astro.config.ts"@, "webpack.config.js"@);
    text::lemma_same_start(root, "astro.config.ts"@, "next.config.js"@);
    text::lemma_same_start(root, "astro.config.ts"@, "next.config.ts"@);
    text::lemma_same_start(root, "astro.config.ts"@, "next.config.mjs"@);
    assert("astro.config.ts"@[0] != "next.config.mjs"@[0]);
    text::lemma_same_start(root, "astro.config.ts"@, "astro.config.mjs"@);
}

/// The files for Docker: the `Dockerfile` at the top of the project, and what
/// begins with `docker-compose` or `.docker` there.
pub proof fn law_docker_files(path: Seq<char>, rest: Seq<char>)
    ensures
        is_docker("Dockerfile"@),
        is_docker("docker-compose"@ + rest),
        is_docker(".docker"@ + rest),
        is_docker(path) ==> {
            ||| path == "Dockerfile"@
            ||| exists|end: Seq<char>| path == #[trigger] ("docker-compose"@ + end)
            ||| exists|end: Seq<char>| path == #[trigger] (".docker"@ + end)
        },
{
    text::lemma_prefix_and_rest(path, "docker-compose"@);
    text::lemma_prefix_and_rest(path, ".docker"@);
    text::lemma_prefix_and_rest("docker-compose"@ + rest, "docker-compose"@);
    text::lemma_prefix_and_rest(".docker"@ + rest, ".docker"@);
}

/// The files for continuous integration: what lies below `.github/workflows/`
/// and `.circleci/`, and `.gitlab-ci.yml`, at the top of the project.
pub proof fn law_integration_files(path: Seq<char>, rest: Seq<char>)
    ensures
        is_ci(".gitlab-ci.yml"@),
        is_ci(".github/workflows/"@ + rest),
        is_ci(".circleci/"@ + rest),
        is_ci(path) ==> {
            ||| path == ".gitlab-ci.yml"@
            ||| exists|end: Seq<char>| path == #[trigger] (".github/workflows/"@ + end)
            ||| exists|end: Seq<char>| path == #[trigger] (".circleci/"@ + end)
        },
{
    text::lemma_prefix_and_rest(path, ".github/workflows/"@);
    text::lemma_prefix_and_rest(path, ".circleci/"@);
    text::lemma_prefix_and_rest(".github/workflows/"@ + rest, ".github/workflows/"@);
    text::lemma_prefix_and_rest(".circleci/"@ + rest, ".circleci/"@);
}

/// The frameworks that a dependency tells of, word by word, in this order;
/// none is told of twice.
pub proof fn law_dependencies_tell_the_frameworks(dependencies: Seq<Seq<char>>)
    ensures
        frameworks(dependencies) == framework_if(dependencies, "next"@, "Next.js"@)
            + framework_if(dependencies, "nuxt"@, "Nuxt"@)
            + framework_if(dependencies, "gatsby"@, "Gatsby"@)
            + framework_if(dependencies, "astro"@, "Astro"@)
            + framework_if(dependencies, "@remix-run/react"@, "Remix"@),
{
    let table = framework_table();
    reveal_with_fuel(frameworks_among, 6);
    assert(table[0] == ("next"@, "Next.js"@));
    assert(table[1] == ("nuxt"@, "Nuxt"@));
    assert(table[2] == ("gatsby"@, "Gatsby"@));
    assert(table[3] == ("astro"@, "Astro"@));
    assert(table[4] == ("@remix-run/react"@, "Remix"@));
    let t4 = table.drop_last();
    let t3 = t4.drop_last();
    let t2 = t3.drop_last();
    let t1 = t2.drop_last();
    assert(t4.last() == table[3]);
    assert(t3.last() == table[2]);
    assert(t2.last() == table[1]);
    assert(t1.last() == table[0]);
    assert(frameworks(dependencies) =~= framework_if(dependencies, "next"@, "Next.js"@)
        + framework_if(dependencies, "nuxt"@, "Nuxt"@)
        + framework_if(dependencies, "gatsby"@, "Gatsby"@)
        + framework_if(dependencies, "astro"@, "Astro"@)
        + framework_if(dependencies, "@remix-run/react"@, "Remix"@));
}

/// The framework alone if the dependency is there, and nothing if it is not.
pub open spec fn framework_if(
    dependencies: Seq<Seq<char>>,
    dependency: Seq<char>,
    framework: Seq<char>,
) -> Seq<Seq<char>> {
    if dependencies.contains(dependency) {
        seq![framework]
    } else {
        Seq::empty()
    }
}

} // verus!
