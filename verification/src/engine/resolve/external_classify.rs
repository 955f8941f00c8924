//! Sorts the packages that a project imports: those built into Node.js, those
//! that its `package.json` declares, and the rest.
use crate::scan::file_classify::is_one_of;
use crate::scan::manifest::PackageJsonData;
use crate::scan::manifest::PackageJsonView;
use crate::string_map::StringMap;
use crate::text;
use vstd::prelude::*;

verus! {

/// The modules that are built into Node.js.
pub const NODE_BUILTIN_MODULES: [&'static str; 40] = [
    "assert",
    "async_hooks",
    "buffer",
    "child_process",
    "cluster",
    "console",
    "constants",
    "crypto",
    "dgram",
    "dns",
    "domain",
    "events",
    "fs",
    "http",
    "http2",
    "https",
    "module",
    "net",
    "os",
    "path",
    "perf_hooks",
    "process",
    "punycode",
    "querystring",
    "readline",
    "repl",
    "stream",
    "string_decoder",
    "sys",
    "timers",
    "tls",
    "trace_events",
    "tty",
    "url",
    "util",
    "v8",
    "vm",
    "wasi",
    "worker_threads",
    "zlib",
];

/// The modules that are built into Node.js, by their characters.
pub open spec fn builtin_modules() -> Seq<Seq<char>> {
    text::str_views(NODE_BUILTIN_MODULES@)
}

/// The name of a module without the `node:` that marks a builtin.
pub open spec fn without_marker(name: Seq<char>) -> Seq<char> {
    match text::without_prefix(name, "node:"@) {
        Some(rest) => rest,
        None => name,
    }
}

/// Whether a module is built into Node.js, with or without the `node:` that
/// marks it.
pub open spec fn is_builtin(name: Seq<char>) -> bool {
    builtin_modules().contains(without_marker(name))
}

/// Whether a module is built into Node.js.
pub fn is_node_builtin(package_name: &str) -> (r: bool)
    ensures
        r == is_builtin(package_name@),
{
    match text::strip_prefix(package_name, "node:") {
        Some(name) => is_one_of(&name, NODE_BUILTIN_MODULES.as_slice()),
        None => is_one_of(package_name, NODE_BUILTIN_MODULES.as_slice()),
    }
}

/// Where a package comes from.
#[derive(Debug, Clone, Copy, PartialEq, Eq, Structural)]
pub enum ExternalCategory {
    NodeBuiltin,
    DeclaredDependency,
    DeclaredDevDependency,
    /// Imported, but neither built in nor declared.
    Undeclared,
}

/// Where a package comes from, as far as the `package.json` tells. What is
/// built in is not looked for there, and a dependency comes before one for
/// development.
pub open spec fn category(name: Seq<char>, package: Option<PackageJsonView>) -> ExternalCategory {
    if is_builtin(name) {
        ExternalCategory::NodeBuiltin
    } else {
        match package {
            Some(data) => if data.dependencies.contains(name) {
                ExternalCategory::DeclaredDependency
            } else if data.dev_dependencies.contains(name) {
                ExternalCategory::DeclaredDevDependency
            } else {
                ExternalCategory::Undeclared
            },
            None => ExternalCategory::Undeclared,
        }
    }
}

/// Package data that may be absent, by its characters.
pub open spec fn package_ref_view(data: Option<&PackageJsonData>) -> Option<PackageJsonView> {
    match data {
        Some(d) => Some(d@),
        None => None,
    }
}

/// Where a package comes from.
pub fn classify_external(package_name: &str, package_data: Option<&PackageJsonData>) -> (r:
    ExternalCategory)
    ensures
        r == category(package_name@, package_ref_view(package_data)),
{
    if is_node_builtin(package_name) {
        return ExternalCategory::NodeBuiltin;
    }
    if let Some(data) = package_data {
        if text::is_listed(&data.dependencies, package_name) {
            return ExternalCategory::DeclaredDependency;
        }
        if text::is_listed(&data.dev_dependencies, package_name) {
            return ExternalCategory::DeclaredDevDependency;
        }
    }
    ExternalCategory::Undeclared
}

/// How often each package is imported, by where the packages come from.
#[derive(Default)]
pub struct ExternalSummary {
    pub node_builtins: StringMap<usize>,
    pub declared_dependencies: StringMap<usize>,
    pub declared_dev_dependencies: StringMap<usize>,
    pub undeclared: StringMap<usize>,
}

/// How often `name` stands in a list.
pub open spec fn occurrences(names: Seq<Seq<char>>, name: Seq<char>) -> nat
    decreases names.len(),
{
    if names.len() == 0 {
        0
    } else {
        occurrences(names.drop_last(), name) + if names.last() == name {
            1nat
        } else {
            0nat
        }
    }
}

/// Whether `counts` holds those of `names` that come from `wanted`, each with
/// how often it stands there.
pub open spec fn counts_of(
    counts: Map<Seq<char>, usize>,
    names: Seq<Seq<char>>,
    package: Option<PackageJsonView>,
    wanted: ExternalCategory,
) -> bool {
    forall|name: Seq<char>|
        {
            &&& #[trigger] counts.contains_key(name) <==> names.contains(name) && category(
                name,
                package,
            ) == wanted
            &&& counts.contains_key(name) ==> counts[name] == occurrences(names, name)
        }
}

impl ExternalSummary {
    /// Whether the summary counts `names`.
    pub open spec fn counts(
        &self,
        names: Seq<Seq<char>>,
        package: Option<PackageJsonView>,
    ) -> bool {
        &&& counts_of(self.node_builtins@, names, package, ExternalCategory::NodeBuiltin)
        &&& counts_of(
            self.declared_dependencies@,
            names,
            package,
            ExternalCategory::DeclaredDependency,
        )
        &&& counts_of(
            self.declared_dev_dependencies@,
            names,
            package,
            ExternalCategory::DeclaredDevDependency,
        )
        &&& counts_of(self.undeclared@, names, package, ExternalCategory::Undeclared)
    }
}

proof fn lemma_occurrences_fit(names: Seq<Seq<char>>, name: Seq<char>)
    ensures
        occurrences(names, name) <= names.len(),
        occurrences(names, name) > 0 <==> names.contains(name),
    decreases names.len(),
{
    if names.len() > 0 {
        let init = names.drop_last();
        lemma_occurrences_fit(init, name);
        if init.contains(name) {
            assert(names[init.index_of(name)] == name);
        }
        if names.last() == name {
            assert(names[names.len() - 1] == name);
        }
        if names.contains(name) && names.last() != name {
            assert(init[names.index_of(name)] == name);
        }
    }
}

fn count_one(
    bucket: &mut StringMap<usize>,
    name: &str,
    seen: Ghost<Seq<Seq<char>>>,
    package: Ghost<Option<PackageJsonView>>,
    wanted: Ghost<ExternalCategory>,
)
    requires
        counts_of(old(bucket)@, seen@, package@, wanted@),
        category(name@, package@) == wanted@,
        seen@.len() < usize::MAX,
    ensures
        counts_of(final(bucket)@, seen@.push(name@), package@, wanted@),
{
    proof {
        lemma_occurrences_fit(seen@, name@);
    }
    let counted: usize = match bucket.get(name) {
        Some(n) => *n,
        None => 0,
    };
    bucket.insert(name.to_string(), counted + 1);
    proof {
        lemma_one_more(seen@, name@);
        assert forall|other: Seq<char>|
            {
                &&& #[trigger] bucket@.contains_key(other) <==> seen@.push(name@).contains(other)
                    && category(other, package@) == wanted@
                &&& bucket@.contains_key(other) ==> bucket@[other] == occurrences(
                    seen@.push(name@),
                    other,
                )
            } by {
            assert(old(bucket)@.contains_key(other) <==> seen@.contains(other) && category(
                other,
                package@,
            ) == wanted@);
        }
    }
}

proof fn lemma_one_more(seen: Seq<Seq<char>>, name: Seq<char>)
    ensures
        forall|other: Seq<char>| #[trigger]
            seen.push(name).contains(other) <==> seen.contains(other) || other == name,
        forall|other: Seq<char>| #[trigger]
            occurrences(seen.push(name), other) == occurrences(seen, other) + if other == name {
                1nat
            } else {
                0nat
            },
{
    let more = seen.push(name);
    assert(more.drop_last() =~= seen);
    assert forall|other: Seq<char>| #[trigger]
        more.contains(other) <==> seen.contains(other) || other == name by {
        if seen.contains(other) {
            assert(more[seen.index_of(other)] == other);
        }
        if other == name {
            assert(more[seen.len() as int] == other);
        }
        if more.contains(other) && other != name {
            assert(seen[more.index_of(other)] == other);
        }
    }
}

proof fn lemma_other_bucket(
    counts: Map<Seq<char>, usize>,
    seen: Seq<Seq<char>>,
    package: Option<PackageJsonView>,
    wanted: ExternalCategory,
    name: Seq<char>,
)
    requires
        counts_of(counts, seen, package, wanted),
        category(name, package) != wanted,
    ensures
        counts_of(counts, seen.push(name), package, wanted),
{
    lemma_one_more(seen, name);
    assert forall|other: Seq<char>|
        {
            &&& #[trigger] counts.contains_key(other) <==> seen.push(name).contains(other)
                && category(other, package) == wanted
            &&& counts.contains_key(other) ==> counts[other] == occurrences(
                seen.push(name),
                other,
            )
        } by {
        assert(counts.contains_key(other) <==> seen.contains(other) && category(other, package)
            == wanted);
    }
}

/// Counts how often each of the packages is imported.
pub fn summarize_externals(
    external_package_names: &[&str],
    package_data: Option<&PackageJsonData>,
) -> (summary: ExternalSummary)
    ensures
        summary.counts(text::str_views(external_package_names@), package_ref_view(package_data)),
{
    let mut summary = ExternalSummary {
        node_builtins: StringMap::new(),
        declared_dependencies: StringMap::new(),
        declared_dev_dependencies: StringMap::new(),
        undeclared: StringMap::new(),
    };
    let ghost all = text::str_views(external_package_names@);
    let ghost package = package_ref_view(package_data);
    let count: usize = external_package_names.len();
    for i in 0..count
        invariant
            count == external_package_names@.len(),
            all == text::str_views(external_package_names@),
            package == package_ref_view(package_data),
            summary.counts(all.take(i as int), package),
    {
        let name = external_package_names[i];
        let ghost seen = all.take(i as int);
        let kind = classify_external(name, package_data);
        proof {
            assert(all.take(i + 1) =~= seen.push(name@));
            if kind != ExternalCategory::NodeBuiltin {
                lemma_other_bucket(
                    summary.node_builtins@,
                    seen,
                    package,
                    ExternalCategory::NodeBuiltin,
                    name@,
                );
            }
            if kind != ExternalCategory::DeclaredDependency {
                lemma_other_bucket(
                    summary.declared_dependencies@,
                    seen,
                    package,
                    ExternalCategory::DeclaredDependency,
                    name@,
                );
            }
            if kind != ExternalCategory::DeclaredDevDependency {
                lemma_other_bucket(
                    summary.declared_dev_dependencies@,
                    seen,
                    package,
                    ExternalCategory::DeclaredDevDependency,
                    name@,
                );
            }
            if kind != ExternalCategory::Undeclared {
                lemma_other_bucket(
                    summary.undeclared@,
                    seen,
                    package,
                    ExternalCategory::Undeclared,
                    name@,
                );
            }
        }
        match kind {
            ExternalCategory::NodeBuiltin => count_one(
                &mut summary.node_builtins,
                name,
                Ghost(seen),
                Ghost(package),
                Ghost(kind),
            ),
            ExternalCategory::DeclaredDependency => count_one(
                &mut summary.declared_dependencies,
                name,
                Ghost(seen),
                Ghost(package),
                Ghost(kind),
            ),
            ExternalCategory::DeclaredDevDependency => count_one(
                &mut summary.declared_dev_dependencies,
                name,
                Ghost(seen),
                Ghost(package),
                Ghost(kind),
            ),
            ExternalCategory::Undeclared => count_one(
                &mut summary.undeclared,
                name,
                Ghost(seen),
                Ghost(package),
                Ghost(kind),
            ),
        }
    }
    assert(all.take(count as int) =~= all);
    summary
}

/// The `node:` in front of a builtin makes no difference to where it comes
/// from.
pub proof fn law_builtins_need_no_marker(name: Seq<char>, package: Option<PackageJsonView>)
    requires
        is_builtin(name),
    ensures
        category(name, package) == ExternalCategory::NodeBuiltin,
        text::without_prefix(name, "node:"@) is None ==> category("node:"@ + name, package)
            == ExternalCategory::NodeBuiltin,
{
    let marked = "node:"@ + name;
    assert(marked.subrange(0, "node:"@.len() as int) =~= "node:"@);
    assert(marked.skip("node:"@.len() as int) =~= name);
}

/// Every import site is counted in exactly one place.
pub proof fn law_each_package_is_counted_once(
    summary: ExternalSummary,
    names: Seq<Seq<char>>,
    package: Option<PackageJsonView>,
    name: Seq<char>,
)
    requires
        summary.counts(names, package),
        names.contains(name),
    ensures
        summary.node_builtins@.contains_key(name) <==> category(name, package)
            == ExternalCategory::NodeBuiltin,
        summary.declared_dependencies@.contains_key(name) <==> category(name, package)
            == ExternalCategory::DeclaredDependency,
        summary.declared_dev_dependencies@.contains_key(name) <==> category(name, package)
            == ExternalCategory::DeclaredDevDependency,
        summary.undeclared@.contains_key(name) <==> category(name, package)
            == ExternalCategory::Undeclared,
{
}

/// Whether `name` is that of a module that is built into Node.js, word by word.
pub open spec fn is_known_builtin(name: Seq<char>) -> bool {
    ||| name == "assert"@
    ||| name == "async_hooks"@
    ||| name == "buffer"@
    ||| name == "child_process"@
    ||| name == "cluster"@
    ||| name == "console"@
    ||| name == "constants"@
    ||| name == "crypto"@
    ||| name == "dgram"@
    ||| name == "dns"@
    ||| name == "domain"@
    ||| name == "events"@
    ||| name == "fs"@
    ||| name == "http"@
    ||| name == "http2"@
    ||| name == "https"@
    ||| name == "module"@
    ||| name == "net"@
    ||| name == "os"@
    ||| name == "path"@
    ||| name == "perf_hooks"@
    ||| name == "process"@
    ||| name == "punycode"@
    ||| name == "querystring"@
    ||| name == "readline"@
    ||| name == "repl"@
    ||| name == "stream"@
    ||| name == "string_decoder"@
    ||| name == "sys"@
    ||| name == "timers"@
    ||| name == "tls"@
    ||| name == "trace_events"@
    ||| name == "tty"@
    ||| name == "url"@
    ||| name == "util"@
    ||| name == "v8"@
    ||| name == "vm"@
    ||| name == "wasi"@
    ||| name == "worker_threads"@
    ||| name == "zlib"@
}

/// A module is built into Node.js exactly if it is one of the known ones, with
/// or without `node:` in front.
pub proof fn law_builtins_are_known(name: Seq<char>)
    ensures
        is_builtin("node:"@ + name) <==> is_known_builtin(name),
        !"node:"@.is_prefix_of(name) ==> (is_builtin(name) <==> is_known_builtin(name)),
{
    let all = builtin_modules();
    let marked = "node:"@ + name;
    text::lemma_prefix_and_rest(marked, "node:"@);
    assert(marked.skip("node:"@.len() as int) =~= name);
    assert(all[0] == "assert"@);
    assert(all[1] == "async_hooks"@);
    assert(all[2] == "buffer"@);
    assert(all[3] == "child_process"@);
    assert(all[4] == "cluster"@);
    assert(all[5] == "console"@);
    assert(all[6] == "constants"@);
    assert(all[7] == "crypto"@);
    assert(all[8] == "dgram"@);
    assert(all[9] == "dns"@);
    assert(all[10] == "domain"@);
    assert(all[11] == "events"@);
    assert(all[12] == "fs"@);
    assert(all[13] == "http"@);
    assert(all[14] == "http2"@);
    assert(all[15] == "https"@);
    assert(all[16] == "module"@);
    assert(all[17] == "net"@);
    assert(all[18] == "os"@);
    assert(all[19] == "path"@);
    assert(all[20] == "perf_hooks"@);
    assert(all[21] == "process"@);
    assert(all[22] == "punycode"@);
    assert(all[23] == "querystring"@);
    assert(all[24] == "readline"@);
    assert(all[25] == "repl"@);
    assert(all[26] == "stream"@);
    assert(all[27] == "string_decoder"@);
    assert(all[28] == "sys"@);
    assert(all[29] == "timers"@);
    assert(all[30] == "tls"@);
    assert(all[31] == "trace_events"@);
    assert(all[32] == "tty"@);
    assert(all[33] == "url"@);
    assert(all[34] == "util"@);
    assert(all[35] == "v8"@);
    assert(all[36] == "vm"@);
    assert(all[37] == "wasi"@);
    assert(all[38] == "worker_threads"@);
    assert(all[39] == "zlib"@);
    assert forall|n: Seq<char>| all.contains(n) implies is_known_builtin(n) by {
        let at = all.index_of(n);
        assert(all[at] == n);
    }
}

/// Where a package comes from: from Node.js if it is built in, whatever is
/// declared; else from the dependencies if it is among them, else from those
/// for development if it is among those, and else from nowhere that is known.
pub proof fn law_packages_come_from_one_place(name: Seq<char>, data: PackageJsonView)
    ensures
        category(name, Some(data)) == ExternalCategory::NodeBuiltin <==> is_builtin(name),
        category(name, Some(data)) == ExternalCategory::DeclaredDependency <==> !is_builtin(name)
            && data.dependencies.contains(name),
        category(name, Some(data)) == ExternalCategory::DeclaredDevDependency <==> !is_builtin(name)
            && !data.dependencies.contains(name) && data.dev_dependencies.contains(name),
        category(name, None) == ExternalCategory::NodeBuiltin <==> is_builtin(name),
        category(name, None) == ExternalCategory::Undeclared <==> !is_builtin(name),
{
}

/// How often a name stands in a list is counted one by one.
pub proof fn law_occurrences_are_counted(before: Seq<Seq<char>>, last: Seq<char>, name: Seq<char>)
    ensures
        occurrences(Seq::empty(), name) == 0,
        occurrences(before.push(name), name) == occurrences(before, name) + 1,
        last != name ==> occurrences(before.push(last), name) == occurrences(before, name),
{
    assert(before.push(name).drop_last() =~= before);
    assert(before.push(last).drop_last() =~= before);
}

/// A package is counted as often as it is imported, where it comes from.
pub proof fn law_packages_are_counted_as_often_as_they_are_imported(
    summary: ExternalSummary,
    names: Seq<Seq<char>>,
    package: Option<PackageJsonView>,
    name: Seq<char>,
)
    requires
        summary.counts(names, package),
        names.contains(name),
    ensures
        match category(name, package) {
            ExternalCategory::NodeBuiltin => summary.node_builtins@.contains_key(name)
                && summary.node_builtins@[name] == occurrences(names, name),
            ExternalCategory::DeclaredDependency => summary.declared_dependencies@.contains_key(name)
                && summary.declared_dependencies@[name] == occurrences(names, name),
            ExternalCategory::DeclaredDevDependency =>
                summary.declared_dev_dependencies@.contains_key(name)
                && summary.declared_dev_dependencies@[name] == occurrences(names, name),
            ExternalCategory::Undeclared => summary.undeclared@.contains_key(name)
                && summary.undeclared@[name] == occurrences(names, name),
        },
{
}

} // verus!
